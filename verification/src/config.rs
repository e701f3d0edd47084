//! Startup configuration for the service: where to listen and which storage
//! endpoint to connect to. The verified core only carries these values; the
//! surrounding binary reads and interprets them.

use vstd::prelude::*;

verus! {

/// Top-level configuration block.
pub struct Config {
    pub version: String,
    pub server: Server,
    pub mongodb: MongoDB,
}

/// HTTP listener configuration.
pub struct Server {
    pub address: String,
}

/// Storage backend configuration.
pub struct MongoDB {
    pub endpoint: String,
}

} // verus!
