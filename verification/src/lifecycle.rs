//! The admission-control tracker consumed by the write path.
//!
//! It keeps a running total of buffered bytes and answers, after each
//! write, whether ingestion should pause because the total has crossed the
//! configured limit.  The decision is advisory: this core does not enforce
//! the pause itself.

use crate::types::PartitionId;
use vstd::prelude::*;

verus! {

/// Configuration of the admission tracker.
#[derive(Debug, Clone, Copy, PartialEq, Eq, Structural)]
pub struct LifecycleConfig {
    /// Ingestion should pause once this many bytes are buffered.
    pub pause_ingest_size_bytes: usize,
}

impl LifecycleConfig {
    pub fn new(pause_ingest_size_bytes: usize) -> (r: Self)
        ensures
            r.pause_ingest_size_bytes == pause_ingest_size_bytes,
    {
        LifecycleConfig { pause_ingest_size_bytes }
    }
}

/// The admission tracker: a byte total against a pause limit.
#[derive(Debug, Clone, Copy, PartialEq, Eq, Structural)]
pub struct LifecycleManager {
    pub config: LifecycleConfig,
    pub total_bytes: usize,
}

/// `x + y` capped at `usize::MAX`.
pub open spec fn sat_add_usize(x: int, y: int) -> int {
    if x + y > usize::MAX {
        usize::MAX as int
    } else {
        x + y
    }
}

impl LifecycleManager {
    pub fn new(config: LifecycleConfig) -> (r: Self)
        ensures
            r.config == config,
            r.total_bytes == 0,
    {
        LifecycleManager { config, total_bytes: 0 }
    }

    /// Accounts a buffered write and reports whether ingestion should now
    /// pause: exactly when the running total has crossed the limit.
    pub fn log_write(&mut self, partition_id: PartitionId, bytes_written: usize) -> (pause: bool)
        ensures
            final(self).config == old(self).config,
            final(self).total_bytes == sat_add_usize(
                old(self).total_bytes as int,
                bytes_written as int,
            ),
            pause == (final(self).total_bytes > old(self).config.pause_ingest_size_bytes),
    {
        self.total_bytes = self.total_bytes.saturating_add(bytes_written);
        self.total_bytes > self.config.pause_ingest_size_bytes
    }
}

} // verus!
