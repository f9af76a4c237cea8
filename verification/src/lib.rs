//! Verified core of a self-hosted media-clip catalog.
//!
//! The library models the clip lifecycle: ingest (payload into object
//! storage, then a metadata row), identity-gated edit and delete, and
//! consistent read-back.  Every operation carries a contract, and the
//! catalog's cross-store invariant (a metadata row always has its object)
//! is proved to hold after every operation.

pub mod catalog;
pub mod clip;
pub mod error;
pub mod guard;
pub mod metadata;
pub mod objects;
