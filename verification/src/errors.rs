//! The error taxonomy of the directive store.

use vstd::prelude::*;

verus! {

/// Everything a store operation can fail with.
///
/// The first four are client faults; the last two report a storage backend
/// that could not be reached or answered too late, and are only produced by
/// backends that actually perform I/O (the verified in-memory backend never
/// raises them).
#[derive(Clone, Copy, Debug, PartialEq, Eq, Structural)]
pub enum StoreError {
    /// The input shape is invalid, e.g. an empty destination URL.
    Validation,
    /// An expiry specification that cannot be parsed or represented.
    InvalidExpiryFormat,
    /// The identifier is absent, or present but past its expiry instant.
    NotFound,
    /// The directive requires credentials that were missing or wrong.
    Unauthorized,
    /// The directive's call quota is fully consumed.
    Exhausted,
    /// The storage backend could not be reached.
    BackendUnavailable,
    /// A backend call exceeded its time bound.
    BackendTimeout,
}

impl StoreError {
    /// A short stable label for logs and HTTP mapping.
    pub fn label(&self) -> (r: &'static str)
        ensures
            r@ == self.spec_label(),
    {
        match self {
            StoreError::Validation => "validation",
            StoreError::InvalidExpiryFormat => "invalid_expiry_format",
            StoreError::NotFound => "not_found",
            StoreError::Unauthorized => "unauthorized",
            StoreError::Exhausted => "exhausted",
            StoreError::BackendUnavailable => "backend_unavailable",
            StoreError::BackendTimeout => "backend_timeout",
        }
    }

    /// What `label` returns for each variant.
    pub open spec fn spec_label(self) -> Seq<char> {
        match self {
            StoreError::Validation => "validation"@,
            StoreError::InvalidExpiryFormat => "invalid_expiry_format"@,
            StoreError::NotFound => "not_found"@,
            StoreError::Unauthorized => "unauthorized"@,
            StoreError::Exhausted => "exhausted"@,
            StoreError::BackendUnavailable => "backend_unavailable"@,
            StoreError::BackendTimeout => "backend_timeout"@,
        }
    }
}

} // verus!
