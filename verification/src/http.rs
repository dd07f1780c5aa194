//! Extraction of plain requests for the HTTP server.

use vstd::prelude::*;

verus! {

/// Matches requests with exactly one path.
#[derive(Debug, Clone)]
pub struct PlainExtractor {
    path: String,
}

/// The request matched by a `PlainExtractor`.
#[derive(Debug, Clone)]
pub struct PlainPath {
    /// The matched path.
    pub path: String,
}

impl PlainExtractor {
    /// The path the extractor matches.
    pub closed spec fn spec_path(&self) -> Seq<char> {
        self.path@
    }

    /// Creates an extractor for `path`.
    pub fn new(path: String) -> (e: Self)
        ensures
            e.spec_path() == path@,
    {
        PlainExtractor { path }
    }

    /// Extracts the request when its path is the extractor's path.
    pub fn try_extract(&self, request_path: &str) -> (r: Option<PlainPath>)
        ensures
            match r {
                Some(p) => request_path@ == self.spec_path() && p.path@ == self.spec_path(),
                None => request_path@ != self.spec_path(),
            },
    {
        let requested = request_path.to_owned();
        if requested == self.path {
            Some(PlainPath { path: self.path.clone() })
        } else {
            None
        }
    }
}

} // verus!
