use vstd::prelude::*;

verus! {

/// The failures a catalog operation can surface to its caller.
///
/// `ProbeFailure` has no variant here on purpose: a failed duration probe
/// is swallowed by the store and only leaves the duration field unset.
#[derive(Debug)]
pub enum CatalogError {
    /// The operation referenced an id that is not in the catalog.
    NotFound,
    /// A required field was missing, a membership pair was duplicated, or
    /// a foreign key referenced a missing row.
    ConstraintViolation,
    /// The store handle was unavailable (for example, a poisoned lock).
    ConnectionError,
    /// The external analyzer failed; the payload is its message.
    AnalyzerError(String),
}

} // verus!
