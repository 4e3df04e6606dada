//! The service surface: a delegate owning the handler that serves
//! queries over the buffered data.

use vstd::prelude::*;

verus! {

/// Manages the services exposed by the ingestion tier, passing valid
/// requests to the handler it was built with.
#[derive(Debug, PartialEq)]
pub struct GrpcDelegate<I> {
    pub ingest_handler: I,
}

impl<I> GrpcDelegate<I> {
    /// Wraps a handler.
    pub fn new(ingest_handler: I) -> (r: Self)
        ensures
            r == (GrpcDelegate { ingest_handler }),
    {
        GrpcDelegate { ingest_handler }
    }
}

} // verus!
