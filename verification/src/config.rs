//! Configuration sources for a serving instance.

use vstd::prelude::*;

verus! {

/// A loader of server configuration from a file path.  Reading and
/// decoding the file happen at the service edge; the library only carries
/// the location.
#[derive(Debug, Clone, PartialEq)]
pub struct ServerConfigFile {
    pub path: String,
}

impl ServerConfigFile {
    pub fn new(path: String) -> (r: Self)
        ensures
            r.path == path,
    {
        ServerConfigFile { path }
    }
}

} // verus!
