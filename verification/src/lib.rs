//! Verified core of a URL-redirection ("directive") service.
//!
//! Clients register a short identifier mapped to a destination URL, optionally
//! with an expiry, a call-count quota, and a credential pair, and later
//! dereference the identifier to receive the destination. This crate owns the
//! directive lifecycle — claim, register, read, list, delete, clear, and the
//! composite redirect that binds lookup, access-policy evaluation, and quota
//! increment into one operation — over an in-memory backend whose behaviour is
//! specified and proved. Time and randomness enter only as plain values: the
//! caller supplies the current clock reading, and fresh identifiers come from
//! a UUID generator behind a narrow trusted boundary.

use vstd::prelude::*;

pub mod auth;
pub mod config;
pub mod directive;
pub mod errors;
pub mod expiry;
pub mod ids;
pub mod mappings;
pub mod order;
pub mod policy;
pub mod server;

verus! {

} // verus!
