//! The settings of a pool of database connections.
use vstd::prelude::*;

verus! {

/// For dealing with database connection pools: it knows the URL that each
/// new connection opens.
#[derive(Debug)]
pub struct Manager {
    url: String,
}

impl Manager {
    /// The URL of the database.
    pub closed spec fn spec_url(&self) -> Seq<char> {
        self.url@
    }

    /// Creates a new manager for the database at `url`.
    pub fn new(url: &str) -> (r: Manager)
        ensures
            r.spec_url() == url@,
    {
        Manager { url: url.to_owned() }
    }

    /// The URL of the database.
    pub fn url(&self) -> (r: &str)
        ensures
            r@ == self.spec_url(),
    {
        self.url.as_str()
    }
}

} // verus!
