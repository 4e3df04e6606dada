//! Command-line entry points.  The commands' work — connections, catalog
//! calls, replaying logs — happens at the service edge; the library only
//! carries their arguments.

use vstd::prelude::*;

verus! {

/// Arguments of the topic-maintenance command: the topics to create or
/// update.
#[derive(Debug, Clone, PartialEq)]
pub struct Config {
    pub topic_names: Vec<String>,
}

/// Arguments of the command that loads all chunks of a database into the
/// read buffer.
#[derive(Debug, Clone, PartialEq)]
pub struct LoadReadBuffer {
    pub db: String,
}

/// Arguments of the command that replays a saved query log against a
/// database.
#[derive(Debug, Clone, PartialEq)]
pub struct Replay {
    pub db: String,
    pub filename: String,
}

} // verus!
