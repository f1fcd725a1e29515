//! Building the tables of a compiled network from a GTFS feed.

pub mod feed;
pub mod ids;
pub mod network;
pub mod routes;
pub mod runs;
pub mod services;
pub mod shapes;
pub mod stop_times;
pub mod stops;
pub mod transfers;
pub mod trip_patterns;
pub mod trips;
pub mod writer;

use vstd::prelude::*;

verus! {

/// Compiles the GTFS feed found at a path; reading the files is left to the
/// caller, which hands the feed to `network::compile_feed`.
#[derive(Debug, Default)]
pub struct Compiler {
    path: String,
}

impl Compiler {
    /// A compiler for the feed at `path`.
    pub fn new(path: &str) -> (r: Self)
        ensures
            r.spec_path() == path@,
    {
        Compiler { path: path.to_string() }
    }

    /// The path of the feed.
    pub closed spec fn spec_path(&self) -> Seq<char> {
        self.path@
    }

    /// The path of the feed.
    pub fn path(&self) -> (r: &str)
        ensures
            r@ == self.spec_path(),
    {
        self.path.as_str()
    }
}

} // verus!
