//! Verified storage engine for a public-certificate directory.
//!
//! Certificates are kept in three tiers (full, quarantined, published) and
//! looked up through three symlink-based indices (by fingerprint, by key id,
//! by email).  This crate holds the verified core: the path layout, the
//! store and index operations over an explicit filesystem model, and the
//! consistency checker.  The thin shell that mirrors the model onto a real
//! disk lives outside the library.

use vstd::prelude::*;

pub mod encode;
pub mod fs;
pub mod fspath;
pub mod ident;
pub mod laws;
pub mod web;

verus! {

/// Errors surfaced by the storage engine.
///
/// Absence of a record or link is never an error: lookups return `None`
/// instead.  I/O is performed outside the verified core, so the variants
/// here cover the logical failures only.
#[derive(Debug, Clone, PartialEq, Eq)]
pub enum Error {
    /// A path under a managed root does not reverse-map to a valid identifier.
    MalformedPath,
    /// An index entry already resolves to a different primary certificate.
    Collision,
    /// A published record's path decodes to a fingerprint with no known
    /// certificate.
    UnknownCert,
    /// A required index entry is absent.
    MissingLink,
    /// An index entry's identifier does not belong to the certificate it
    /// resolves to.
    WrongOwner,
    /// The configured storage roots are unusable: a component is not a
    /// plain directory name, or one root reaches into the other.
    BadConfiguration,
}

} // verus!
