//! Context types for the directory's front end.
//!
//! The network front end renders pages from plain data: these are the
//! contexts its templates receive, and the small wrappers its routes pass
//! around.  Build metadata (version and commit) is not available to the
//! library; the shell fills those fields after construction.

use vstd::prelude::*;

verus! {

/// Context of the address-verification page.
#[derive(Debug, PartialEq, Eq)]
pub struct Verify {
    pub verified: bool,
    pub userid: String,
    pub fpr: String,
    pub domain: String,
    pub commit: String,
    pub version: String,
}

/// Context of the key-deletion page.
#[derive(Debug, PartialEq, Eq)]
pub struct Delete {
    pub token: String,
    pub fpr: String,
    pub commit: String,
    pub version: String,
}

/// Context of the search page.
#[derive(Debug, PartialEq, Eq)]
pub struct Search {
    pub query: String,
    pub fpr: Option<String>,
    pub domain: Option<String>,
    pub commit: String,
    pub version: String,
}

/// Context of the deletion-confirmation page.
#[derive(Debug, PartialEq, Eq)]
pub struct Confirm {
    pub deleted: bool,
    pub commit: String,
    pub version: String,
}

/// Context of the server-error page.
#[derive(Debug, PartialEq, Eq)]
pub struct FiveHundred {
    pub error: String,
    pub commit: String,
    pub version: String,
}

/// Context of the landing page.
#[derive(Debug, PartialEq, Eq)]
pub struct Index {
    pub error: Option<String>,
    pub commit: String,
    pub version: String,
}

impl Index {
    /// A landing-page context carrying an optional error message; the
    /// build metadata fields start empty.
    pub fn new(error: Option<String>) -> (r: Index)
        ensures
            r.error == error,
            r.version@ == Seq::<char>::empty(),
            r.commit@ == Seq::<char>::empty(),
    {
        Index { error, version: String::new(), commit: String::new() }
    }
}

/// Context shared by static pages.
#[derive(Debug, PartialEq, Eq)]
pub struct General {
    pub commit: String,
    pub version: String,
}

/// The domain this directory serves, as configured.
#[derive(Debug, PartialEq, Eq)]
pub struct Domain(pub String);

/// Whether downloads are delegated to the front-end proxy.
#[derive(Debug, PartialEq, Eq)]
pub struct XAccelRedirect(pub bool);

} // verus!
