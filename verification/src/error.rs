use vstd::prelude::*;

verus! {

/// The catalog's error taxonomy.  Every failure a caller can observe is one
/// of these variants; contracts state exactly which inputs produce which.
#[derive(Clone, Copy, Debug, PartialEq, Eq, Structural)]
pub enum CatalogError {
    /// The referenced id or storage key is absent.
    NotFound,
    /// A mutating call was made without a valid session token.
    Unauthorized,
    /// Login was attempted with the wrong username or password.
    InvalidCredentials,
    /// The name, description or payload is malformed (here: empty name or
    /// empty payload), or the chosen storage key is already taken.
    ValidationError,
    /// The metadata backend cannot persist the request (unreachable, or its
    /// id space is exhausted).
    StoreUnavailable,
    /// The object storage backend is unreachable.
    StorageUnavailable,
}

} // verus!
