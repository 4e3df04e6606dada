//! The buffering tree: sequencer, namespace, table and partition data,
//! and the operations the ingestion tier exposes on them.
//!
//! Each level maps a key (namespace name, table name, partition key) to
//! its children; entries are created lazily, with the catalog as the
//! arbiter of identity, and never reordered, so indices stay stable.

use crate::batch::Batch;
use crate::batch::BatchError;
use crate::scan::batch_min_time;
use crate::buffer::BufferBatch;
use crate::buffer::DataBuffer;
use crate::buffer::SnapV;
use crate::buffer::SnapshotBatch;
use crate::buffer::bufs_ordered;
use crate::buffer::bufs_wf;
use crate::buffer::fold_batches;
use crate::buffer::fold_compat;
use crate::buffer::fold_rows_ok;
use crate::buffer::snaps_v;
use crate::buffer::snap_v;
use crate::buffer::snapshots_wf;
use crate::catalog::Catalog;
use crate::catalog::CatalogError;
use crate::catalog::fault_step;
use crate::catalog::has_partition;
use crate::catalog::has_tombstone;
use crate::delete::DeletePredicate;
use crate::delete::TombV;
use crate::delete::Tombstone;
use crate::delete::clone_tombstone;
use crate::delete::pred_v;
use crate::delete::tomb_v;
use crate::delete::tombs_v;
use crate::lifecycle::LifecycleManager;
use crate::lifecycle::sat_add_usize;
use crate::outside::date_key_of;
use crate::outside::format_date_key;
use crate::scan::columns_size;
use crate::scan::duplicate_batch;
use crate::types::NamespaceId;
use crate::types::PartitionId;
use crate::types::SequenceNumber;
use crate::types::SequencerId;
use crate::types::TableId;
use crate::types::Timestamp;
use vstd::prelude::*;

verus! {

/// Errors of the write path and the buffer operations.
#[derive(Debug, PartialEq)]
pub enum Error {
    /// The sequencer is not configured on this instance.
    SequencerNotFound { sequencer_id: SequencerId },
    /// The namespace does not pre-exist in the catalog.
    NamespaceNotFound { namespace: String },
    /// The table is not buffered in memory.
    TableNotFound { table_name: String },
    /// A delete arrived without a table name.
    TableNotPresent,
    /// A write arrived without a usable time column.
    TimeColumnNotPresent,
    /// A persist cycle is already in flight for the partition.
    PersistingNotEmpty,
    /// No persist cycle is in flight for the partition.
    PersistingEmpty,
    /// The given batch is not the one in flight.
    PersistingNotMatch,
    /// Folding the mutable stage hit a schema conflict.
    Snapshot { source: BatchError },
    /// The catalog reported an error.
    Catalog { source: CatalogError },
    /// The partition is not known to the catalog.
    PartitionNotFound { partition_id: PartitionId },
}

/// Whether the keys of a keyed entry list are pairwise distinct.
pub open spec fn keys_distinct<T>(s: Seq<(String, T)>) -> bool {
    forall|i: int, j: int| 0 <= i < j < s.len() ==> (#[trigger] s[i].0@) != (#[trigger] s[j].0@)
}

/// Whether some entry of `s` is keyed `n`.
pub open spec fn has_key<T>(s: Seq<(String, T)>, n: Seq<char>) -> bool {
    exists|i: int| 0 <= i < s.len() && (#[trigger] s[i].0@) == n
}

/// The index of the entry of `s` keyed `n`.
pub open spec fn key_idx<T>(s: Seq<(String, T)>, n: Seq<char>) -> int {
    choose|i: int| 0 <= i < s.len() && (#[trigger] s[i].0@) == n
}

/// With distinct keys, the entry looked up for the key of the entry at `i`
/// is the entry at `i` itself.
pub proof fn lemma_key_idx<T>(s: Seq<(String, T)>, i: int)
    requires
        0 <= i < s.len(),
        keys_distinct(s),
    ensures
        has_key(s, s[i].0@),
        key_idx(s, s[i].0@) == i,
{
    assert(0 <= i < s.len() && s[i].0@ == s[i].0@);
    let j = key_idx(s, s[i].0@);
    if j < i {
        assert(s[j].0@ != s[i].0@);
    } else if j > i {
        assert(s[i].0@ != s[j].0@);
    }
}

/// Finds the index of the first entry keyed `name`, if one exists.
#[verifier::loop_isolation(false)]
pub fn find_key<T>(v: &Vec<(String, T)>, name: &String) -> (r: Option<usize>)
    ensures
        match r {
            Option::Some(i) => i < v@.len() && v@[i as int].0@ == name@,
            Option::None => !has_key(v@, name@),
        },
{
    let mut i: usize = 0;
    while i < v.len()
        invariant
            i <= v@.len(),
            forall|p: int| 0 <= p < i ==> (#[trigger] v@[p].0@) != name@,
        decreases v@.len() - i,
    {
        if v[i].0 == *name {
            return Option::Some(i);
        }
        i += 1;
    }
    proof {
        if has_key(v@, name@) {
            let w = key_idx(v@, name@);
            assert(v@[w].0@ != name@);
        }
    }
    Option::None
}

/// Whether a batch with sequence number `n` may be appended to the run
/// `s`: the order is kept and the folded row count still fits.
pub open spec fn can_append(s: Seq<BufferBatch>, n: i64, mb: Batch) -> bool {
    &&& s.len() == 0 || s.last().sequencer_number.0 <= n
    &&& fold_batches(s).rows + mb@.rows <= usize::MAX
}

/// One time-partition's buffered data.
#[derive(Debug, PartialEq)]
pub struct PartitionData {
    pub id: PartitionId,
    pub data_buffer: DataBuffer,
}

impl PartitionData {
    /// The buffer can be folded: batches are well-formed, in order, and
    /// their total row count fits; snapshots hold well-formed batches.
    pub open spec fn wf(&self) -> bool {
        &&& self.data_buffer.buffer_foldable()
        &&& snapshots_wf(self.data_buffer.snapshots@)
    }

    /// An empty partition buffer.
    pub fn new(id: PartitionId) -> (r: Self)
        ensures
            r.id == id,
            r.wf(),
            r.data_buffer.buffer@.len() == 0,
            r.data_buffer.deletes@.len() == 0,
            r.data_buffer.snapshots@.len() == 0,
            r.data_buffer.persisting is None,
    {
        PartitionData { id, data_buffer: DataBuffer::default() }
    }

    /// Appends one record batch to the mutable stage.  Always succeeds;
    /// the caller already validated the write.
    pub fn buffer_write(&mut self, sequencer_number: SequenceNumber, mb: Batch)
        requires
            old(self).wf(),
            mb.wf(),
            can_append(old(self).data_buffer.buffer@, sequencer_number.0, mb),
        ensures
            final(self).wf(),
            final(self).id == old(self).id,
            final(self).data_buffer.buffer@ == old(self).data_buffer.buffer@.push(
                BufferBatch { sequencer_number, data: mb },
            ),
            final(self).data_buffer.deletes == old(self).data_buffer.deletes,
            final(self).data_buffer.snapshots == old(self).data_buffer.snapshots,
            final(self).data_buffer.persisting == old(self).data_buffer.persisting,
    {
        let ghost b0 = self.data_buffer.buffer@;
        let b = BufferBatch { sequencer_number, data: mb };
        self.data_buffer.buffer.push(b);
        proof {
            let b1 = self.data_buffer.buffer@;
            assert(b1.drop_last() =~= b0);
            assert(b1.last() == b);
            assert(bufs_wf(b1)) by {
                assert(forall|i: int| 0 <= i < b0.len() ==> (#[trigger] b1[i]) == b0[i]);
            }
            assert(bufs_ordered(b1)) by {
                assert forall|i: int, j: int| 0 <= i <= j < b1.len() implies (#[trigger] b1[i].sequencer_number.0)
                    <= (#[trigger] b1[j].sequencer_number.0) by {
                    if j < b1.len() - 1 {
                        assert(b0[i].sequencer_number.0 <= b0[j].sequencer_number.0);
                    } else if i < j {
                        assert(b0[i].sequencer_number.0 <= b0[b0.len() - 1].sequencer_number.0);
                    }
                }
            }
            assert(fold_rows_ok(b1));
        }
    }

    /// Appends one tombstone to the pending-delete list.  At compaction
    /// time only the tombstone's time range is applied as a filter; its
    /// column comparisons ride along for the query side (see
    /// [`crate::persist::compact`]).
    pub fn buffer_tombstone(&mut self, tombstone: Tombstone)
        ensures
            final(self).id == old(self).id,
            final(self).wf() == old(self).wf(),
            final(self).data_buffer.deletes@ == old(self).data_buffer.deletes@.push(tombstone),
            final(self).data_buffer.buffer == old(self).data_buffer.buffer,
            final(self).data_buffer.snapshots == old(self).data_buffer.snapshots,
            final(self).data_buffer.persisting == old(self).data_buffer.persisting,
    {
        self.data_buffer.deletes.push(tombstone);
    }

    /// Folds the mutable stage and hands back a copy of the snapshot list.
    pub fn snapshot(&mut self) -> (r: Result<Vec<SnapshotBatch>, BatchError>)
        requires
            old(self).wf(),
        ensures
            final(self).id == old(self).id,
            final(self).wf(),
            match r {
                Ok(v) => {
                    &&& final(self).data_buffer.buffer@.len() == 0
                    &&& snaps_v(v@) == snaps_v(final(self).data_buffer.snapshots@)
                    &&& final(self).data_buffer.deletes == old(self).data_buffer.deletes
                    &&& final(self).data_buffer.persisting == old(self).data_buffer.persisting
                },
                Err(e) => {
                    &&& *final(self) == *old(self)
                    &&& !fold_compat(old(self).data_buffer.buffer@)
                    &&& e matches BatchError::TypeMismatch { column }
                },
            },
    {
        match self.data_buffer.snapshot() {
            Err(e) => Err(e),
            Ok(_) => {
                proof {
                    let s1 = self.data_buffer.snapshots@;
                    assert(snapshots_wf(s1)) by {
                        assert forall|k: int| 0 <= k < s1.len() implies (#[trigger] s1[k].data).wf()
                            by {
                            if k < s1.len() - 1 || old(self).data_buffer.buffer@.len() == 0 {
                                assert(s1[k] == old(self).data_buffer.snapshots@[k]);
                            }
                        }
                    }
                }
                let n = self.data_buffer.snapshots.len();
                let mut out: Vec<SnapshotBatch> = Vec::new();
                let mut i: usize = 0;
                while i < n
                    invariant
                        i <= n,
                        n == self.data_buffer.snapshots@.len(),
                        snapshots_wf(self.data_buffer.snapshots@),
                        out@.len() == i,
                        forall|k: int|
                            0 <= k < i ==> snap_v(#[trigger] out@[k]) == snap_v(
                                self.data_buffer.snapshots@[k],
                            ),
                    decreases n - i,
                {
                    let s = &self.data_buffer.snapshots[i];
                    let copy = SnapshotBatch {
                        min_sequencer_number: s.min_sequencer_number,
                        max_sequencer_number: s.max_sequencer_number,
                        data: duplicate_batch(&s.data),
                    };
                    out.push(copy);
                    i += 1;
                }
                proof {
                    assert(snaps_v(out@) =~= snaps_v(self.data_buffer.snapshots@));
                }
                Ok(out)
            },
        }
    }

    /// Folds the mutable stage and freezes all snapshots and pending
    /// tombstones into one new persisting batch; rejected while one is
    /// already in flight.
    pub fn snapshot_to_persisting_batch(
        &mut self,
        sequencer_id: SequencerId,
        table_id: TableId,
        partition_id: PartitionId,
        table_name: &String,
    ) -> (r: Result<(), Error>)
        requires
            old(self).wf(),
        ensures
            final(self).id == old(self).id,
            final(self).wf(),
            match r {
                Ok(_) => {
                    &&& old(self).data_buffer.persisting is None
                    &&& final(self).data_buffer.buffer@.len() == 0
                    &&& final(self).data_buffer.snapshots@.len() == 0
                    &&& final(self).data_buffer.deletes@.len() == 0
                    &&& final(self).data_buffer.persisting is Some
                    &&& fold_compat(old(self).data_buffer.buffer@)
                    &&& {
                        let p = final(self).data_buffer.persisting.unwrap();
                        &&& p.sequencer_id == sequencer_id
                        &&& p.table_id == table_id
                        &&& p.partition_id == partition_id
                        &&& p.data.table_name@ == table_name@
                        &&& snapshots_wf(p.data.data@)
                        &&& tombs_v(p.data.deletes@) == tombs_v(old(self).data_buffer.deletes@)
                        &&& snaps_v(p.data.data@) == if old(self).data_buffer.buffer@.len() == 0 {
                            snaps_v(old(self).data_buffer.snapshots@)
                        } else {
                            snaps_v(old(self).data_buffer.snapshots@).push(
                                SnapV {
                                    min_seq: old(self).data_buffer.buffer@[0].sequencer_number.0,
                                    max_seq: old(
                                        self,
                                    ).data_buffer.buffer@.last().sequencer_number.0,
                                    data: fold_batches(old(self).data_buffer.buffer@),
                                },
                            )
                        }
                    }
                },
                Err(e) => {
                    &&& *final(self) == *old(self)
                    &&& (e is PersistingNotEmpty <==> old(self).data_buffer.persisting is Some)
                    &&& (e is PersistingNotEmpty || (e matches Error::Snapshot { source }
                        && source matches BatchError::TypeMismatch { column } && !fold_compat(
                        old(self).data_buffer.buffer@,
                    )))
                },
            },
    {
        self.data_buffer.snapshot_to_persisting(sequencer_id, table_id, partition_id, table_name)
    }

    /// Clears the persisting stage and reports whether the partition now
    /// holds no data at all.
    pub fn clear_persisting(&mut self) -> (empty: bool)
        ensures
            final(self).id == old(self).id,
            final(self).data_buffer.buffer == old(self).data_buffer.buffer,
            final(self).data_buffer.deletes == old(self).data_buffer.deletes,
            final(self).data_buffer.snapshots == old(self).data_buffer.snapshots,
            final(self).data_buffer.persisting is None,
            empty == (old(self).data_buffer.snapshots@.len() == 0
                && old(self).data_buffer.buffer@.len() == 0),
    {
        self.data_buffer.persisting = Option::None;
        self.data_buffer.snapshots.len() == 0 && self.data_buffer.buffer.len() == 0
    }
}

/// The accounting weight of a batch, capped at `usize::MAX`.
pub open spec fn batch_size_capped(b: Batch) -> int {
    if columns_size(b.columns@) > usize::MAX {
        usize::MAX as int
    } else {
        columns_size(b.columns@)
    }
}

/// The effect of buffering one write on a table's partition map: the
/// partition keyed `k` gains the batch at the end of its mutable stage,
/// other partitions are untouched, and an absent partition appears at the
/// end of the map.
pub open spec fn table_write_effect(
    t0: Seq<(String, PartitionData)>,
    t1: Seq<(String, PartitionData)>,
    k: Seq<char>,
    n: i64,
    mb: Batch,
) -> bool {
    if has_key(t0, k) {
        let i = key_idx(t0, k);
        &&& t1.len() == t0.len()
        &&& forall|j: int| 0 <= j < t0.len() && j != i ==> (#[trigger] t1[j]) == t0[j]
        &&& t1[i].0 == t0[i].0
        &&& t1[i].1.id == t0[i].1.id
        &&& t1[i].1.data_buffer.buffer@ == t0[i].1.data_buffer.buffer@.push(
            BufferBatch { sequencer_number: SequenceNumber(n), data: mb },
        )
        &&& t1[i].1.data_buffer.deletes == t0[i].1.data_buffer.deletes
        &&& t1[i].1.data_buffer.snapshots == t0[i].1.data_buffer.snapshots
        &&& t1[i].1.data_buffer.persisting == t0[i].1.data_buffer.persisting
    } else {
        &&& t1.len() == t0.len() + 1
        &&& t1.take(t0.len() as int) == t0
        &&& t1.last().0@ == k
        &&& t1.last().1.data_buffer.buffer@ == seq![
            BufferBatch { sequencer_number: SequenceNumber(n), data: mb },
        ]
        &&& t1.last().1.data_buffer.deletes@.len() == 0
        &&& t1.last().1.data_buffer.snapshots@.len() == 0
        &&& t1.last().1.data_buffer.persisting is None
    }
}

/// The buffered data of one table, keyed by partition key.
#[derive(Debug, PartialEq)]
pub struct TableData {
    pub table_id: TableId,
    pub partition_data: Vec<(String, PartitionData)>,
}

impl TableData {
    /// Partition keys are distinct and every partition can be folded.
    pub open spec fn wf(&self) -> bool {
        &&& keys_distinct(self.partition_data@)
        &&& forall|i: int|
            0 <= i < self.partition_data@.len() ==> (#[trigger] self.partition_data@[i].1).wf()
    }

    /// An empty table buffer.
    pub fn new(table_id: TableId) -> (r: Self)
        ensures
            r.table_id == table_id,
            r.partition_data@.len() == 0,
            r.wf(),
    {
        TableData { table_id, partition_data: Vec::new() }
    }

    /// The buffered partition under the given key, if any.
    pub fn partition_data(&self, partition_key: &String) -> (r: Option<&PartitionData>)
        ensures
            match r {
                Option::Some(p) => exists|i: int|
                    0 <= i < self.partition_data@.len() && (#[trigger] self.partition_data@[i].0@)
                        == partition_key@ && *p == self.partition_data@[i].1,
                Option::None => !has_key(self.partition_data@, partition_key@),
            },
    {
        match find_key(&self.partition_data, partition_key) {
            Option::Some(i) => Option::Some(&self.partition_data[i].1),
            Option::None => Option::None,
        }
    }

    /// Routes one write to the partition its minimum timestamp's calendar
    /// date names, creating the partition in the catalog and the map when
    /// absent, accounts its size with the admission tracker, and buffers
    /// it.  Reports whether ingestion should pause.
    #[verifier::loop_isolation(false)]
    pub fn buffer_table_write(
        &mut self,
        sequence_number: SequenceNumber,
        batch: Batch,
        sequencer_id: SequencerId,
        catalog: &mut Catalog,
        lifecycle_manager: &mut LifecycleManager,
    ) -> (r: Result<bool, Error>)
        requires
            old(self).wf(),
            batch.wf(),
            forall|i: int|
                0 <= i < old(self).partition_data@.len() ==> can_append(
                    (#[trigger] old(self).partition_data@[i].1).data_buffer.buffer@,
                    sequence_number.0,
                    batch,
                ),
        ensures
            final(self).table_id == old(self).table_id,
            final(lifecycle_manager).config == old(lifecycle_manager).config,
            match r {
                Ok(pause) => {
                    &&& batch_min_time(batch) is Some
                    &&& final(self).wf()
                    &&& table_write_effect(
                        old(self).partition_data@,
                        final(self).partition_data@,
                        date_key_of(batch_min_time(batch).unwrap()),
                        sequence_number.0,
                        batch,
                    )
                    &&& final(lifecycle_manager).total_bytes == sat_add_usize(
                        old(lifecycle_manager).total_bytes as int,
                        batch_size_capped(batch),
                    )
                    &&& pause == (final(lifecycle_manager).total_bytes > old(
                        lifecycle_manager,
                    ).config.pause_ingest_size_bytes)
                    &&& if has_key(
                        old(self).partition_data@,
                        date_key_of(batch_min_time(batch).unwrap()),
                    ) {
                        *final(catalog) == *old(catalog)
                    } else {
                        &&& fault_step(*old(catalog), *final(catalog), false)
                        &&& *final(catalog) == (Catalog {
                            partitions: final(catalog).partitions,
                            next_id: final(catalog).next_id,
                            faults: final(catalog).faults,
                            ..*old(catalog)
                        })
                        &&& final(catalog).partitions@.take(old(catalog).partitions@.len() as int)
                            == old(catalog).partitions@
                        &&& final(catalog).partitions@.len() <= old(catalog).partitions@.len() + 1
                        &&& final(catalog).next_id <= old(catalog).next_id + 1
                        &&& has_partition(
                            final(catalog).partitions@,
                            date_key_of(batch_min_time(batch).unwrap()),
                            sequencer_id.0,
                            old(self).table_id.0,
                        )
                        // the new map entry carries the catalog-assigned id
                        &&& exists|ci: int|
                            0 <= ci < final(catalog).partitions@.len()
                                && (#[trigger] final(catalog).partitions@[ci].partition_key@)
                                == date_key_of(batch_min_time(batch).unwrap())
                                && final(catalog).partitions@[ci].sequencer_id.0 == sequencer_id.0
                                && final(catalog).partitions@[ci].table_id.0 == old(
                                self,
                            ).table_id.0
                                && final(catalog).partitions@[ci].id
                                == final(self).partition_data@.last().1.id
                    }
                },
                Err(e) => {
                    &&& *final(self) == *old(self)
                    &&& *final(lifecycle_manager) == *old(lifecycle_manager)
                    &&& match e {
                        Error::TimeColumnNotPresent => {
                            &&& batch_min_time(batch) is None
                            &&& *final(catalog) == *old(catalog)
                        },
                        Error::Catalog { source } => {
                            &&& batch_min_time(batch) is Some
                            &&& !has_key(
                                old(self).partition_data@,
                                date_key_of(batch_min_time(batch).unwrap()),
                            )
                            &&& crate::catalog::same_core(*old(catalog), *final(catalog))
                            &&& ((source is Unavailable && fault_step(
                                *old(catalog),
                                *final(catalog),
                                true,
                            )) || (source is IdSpaceExhausted && old(catalog).next_id
                                == i64::MAX))
                        },
                        _ => false,
                    }
                },
            },
    {
        let ts = match batch.min_time() {
            Option::Some(ts) => ts,
            Option::None => {
                return Err(Error::TimeColumnNotPresent);
            },
        };
        let partition_key = format_date_key(ts);
        match find_key(&self.partition_data, &partition_key) {
            Option::Some(i) => {
                proof {
                    lemma_key_idx(self.partition_data@, i as int);
                }
                let pid = self.partition_data[i].1.id;
                let size = batch.size();
                let pause = lifecycle_manager.log_write(pid, size);
                let ghost t0 = self.partition_data@;
                self.partition_data[i].1.buffer_write(sequence_number, batch);
                proof {
                    let t1 = self.partition_data@;
                    assert forall|j: int| 0 <= j < t1.len() implies (#[trigger] t1[j].1).wf() by {
                        if j != i {
                            assert(t1[j] == t0[j]);
                        }
                    }
                    assert(keys_distinct(t1)) by {
                        assert forall|p: int, q: int|
                            0 <= p < q < t1.len() implies (#[trigger] t1[p].0@) != (
                        #[trigger] t1[q].0@) by {
                            assert(t0[p].0@ != t0[q].0@);
                            if p != i {
                                assert(t1[p] == t0[p]);
                            }
                            if q != i {
                                assert(t1[q] == t0[q]);
                            }
                        }
                    }
                }
                Ok(pause)
            },
            Option::None => {
                let partition = match catalog.partitions_create_or_get(
                    &partition_key,
                    sequencer_id,
                    self.table_id,
                ) {
                    Ok(p) => p,
                    Err(source) => {
                        return Err(Error::Catalog { source });
                    },
                };
                let mut pd = PartitionData::new(partition.id);
                let size = batch.size();
                let pause = lifecycle_manager.log_write(pd.id, size);
                let ghost bb = BufferBatch { sequencer_number: sequence_number, data: batch };
                pd.buffer_write(sequence_number, batch);
                proof {
                    assert(pd.data_buffer.buffer@ =~= seq![bb]);
                    assert(has_partition(
                        catalog.partitions@,
                        partition.partition_key@,
                        sequencer_id.0,
                        self.table_id.0,
                    )) by {
                        if !has_partition(
                            old(catalog).partitions@,
                            partition.partition_key@,
                            sequencer_id.0,
                            self.table_id.0,
                        ) {
                            let li = catalog.partitions@.len() - 1;
                            assert(catalog.partitions@[li].partition_key@ == partition.partition_key@
                                && catalog.partitions@[li].sequencer_id.0 == sequencer_id.0
                                && catalog.partitions@[li].table_id.0 == self.table_id.0);
                        }
                    }
                }
                let ghost t0 = self.partition_data@;
                self.partition_data.push((partition_key, pd));
                proof {
                    let t1 = self.partition_data@;
                    assert(t1.take(t0.len() as int) =~= t0);
                    assert forall|j: int| 0 <= j < t1.len() implies (#[trigger] t1[j].1).wf() by {
                        if j < t0.len() {
                            assert(t1[j] == t0[j]);
                        }
                    }
                    assert(keys_distinct(t1)) by {
                        assert forall|p: int, q: int|
                            0 <= p < q < t1.len() implies (#[trigger] t1[p].0@) != (
                        #[trigger] t1[q].0@) by {
                            if q < t0.len() {
                                assert(t0[p].0@ != t0[q].0@);
                            } else {
                                assert(t1[p] == t0[p]);
                                assert(!has_key(t0, t1[q].0@));
                                if t1[p].0@ == t1[q].0@ {
                                    assert(has_key(t0, t1[q].0@));
                                }
                            }
                        }
                    }
                }
                Ok(pause)
            },
        }
    }

    /// Records the delete in the catalog as a tombstone, then broadcasts
    /// that tombstone into every buffered partition of the table.  The
    /// catalog write is the durability point and happens once; broadcast
    /// touches only the in-memory delete lists.
    #[verifier::loop_isolation(false)]
    pub fn buffer_delete(
        &mut self,
        predicate: &DeletePredicate,
        sequencer_id: SequencerId,
        sequence_number: SequenceNumber,
        catalog: &mut Catalog,
    ) -> (r: Result<(), Error>)
        requires
            old(self).wf(),
        ensures
            final(self).table_id == old(self).table_id,
            match r {
                Ok(_) => {
                    &&& final(self).wf()
                    &&& exists|tv: TombV|
                        #![trigger delete_broadcast_effect(
                            old(self).partition_data@,
                            final(self).partition_data@,
                            tv,
                        )]
                        {
                            &&& tv.table_id == old(self).table_id.0
                            &&& tv.sequencer_id == sequencer_id.0
                            &&& tv.sequence_number == sequence_number.0
                            &&& delete_broadcast_effect(
                                old(self).partition_data@,
                                final(self).partition_data@,
                                tv,
                            )
                            &&& delete_catalog_effect(
                                *old(catalog),
                                *final(catalog),
                                old(self).table_id.0,
                                sequencer_id.0,
                                sequence_number.0,
                                pred_v(*predicate),
                                tv,
                            )
                        }
                    &&& fault_step(*old(catalog), *final(catalog), false)
                },
                Err(e) => {
                    &&& *final(self) == *old(self)
                    &&& match e {
                        Error::Catalog { source } => {
                            &&& crate::catalog::same_core(*old(catalog), *final(catalog))
                            &&& ((source is Unavailable && fault_step(
                                *old(catalog),
                                *final(catalog),
                                true,
                            )) || (source is IdSpaceExhausted && old(catalog).next_id
                                == i64::MAX))
                        },
                        _ => false,
                    }
                },
            },
    {
        let min_time = Timestamp::new(predicate.range.start());
        let max_time = Timestamp::new(predicate.range.end());
        let tombstone = match catalog.tombstones_create_or_get(
            self.table_id,
            sequencer_id,
            sequence_number,
            min_time,
            max_time,
            predicate,
        ) {
            Ok(t) => t,
            Err(source) => {
                return Err(Error::Catalog { source });
            },
        };
        let ghost tv = tomb_v(tombstone);
        let ghost t0 = self.partition_data@;
        let ghost tid0 = self.table_id;
        let n = self.partition_data.len();
        let mut j: usize = 0;
        while j < n
            invariant
                j <= n,
                n == self.partition_data@.len(),
                self.table_id == tid0,
                self.partition_data@.len() == t0.len(),
                forall|p: int| j <= p < n ==> (#[trigger] self.partition_data@[p]) == t0[p],
                forall|p: int|
                    0 <= p < j ==> delete_entry_effect(
                        #[trigger] t0[p],
                        self.partition_data@[p],
                        tv,
                    ),
            decreases n - j,
        {
            let t = clone_tombstone(&tombstone);
            let ghost d0 = self.partition_data@[j as int].1.data_buffer.deletes@;
            self.partition_data[j].1.buffer_tombstone(t);
            proof {
                assert(tombs_v(self.partition_data@[j as int].1.data_buffer.deletes@) =~= tombs_v(
                    d0,
                ).push(tv));
            }
            j += 1;
        }
        proof {
            assert(delete_broadcast_effect(t0, self.partition_data@, tv));
            assert(keys_distinct(self.partition_data@)) by {
                assert forall|p: int, q: int|
                    0 <= p < q < self.partition_data@.len() implies (
                #[trigger] self.partition_data@[p].0@) != (
                #[trigger] self.partition_data@[q].0@) by {
                    assert(delete_entry_effect(t0[p], self.partition_data@[p], tv));
                    assert(delete_entry_effect(t0[q], self.partition_data@[q], tv));
                    assert(t0[p].0@ != t0[q].0@);
                }
            }
            assert forall|p: int| 0 <= p < self.partition_data@.len() implies (
            #[trigger] self.partition_data@[p].1).wf() by {
                assert(delete_entry_effect(t0[p], self.partition_data@[p], tv));
                assert(t0[p].1.wf());
            }
        }
        Ok(())
    }
}

/// How one partition entry looks after a tombstone broadcast: the same
/// entry with the tombstone appended to its delete list.
pub open spec fn delete_entry_effect(
    e0: (String, PartitionData),
    e1: (String, PartitionData),
    tv: TombV,
) -> bool {
    &&& e1.0 == e0.0
    &&& e1.1.id == e0.1.id
    &&& e1.1.wf() == e0.1.wf()
    &&& e1.1.data_buffer.buffer == e0.1.data_buffer.buffer
    &&& e1.1.data_buffer.snapshots == e0.1.data_buffer.snapshots
    &&& e1.1.data_buffer.persisting == e0.1.data_buffer.persisting
    &&& tombs_v(e1.1.data_buffer.deletes@) == tombs_v(e0.1.data_buffer.deletes@).push(tv)
}

/// How a table's partition map looks after a tombstone broadcast: every
/// partition gained the tombstone, and nothing else changed.
pub open spec fn delete_broadcast_effect(
    t0: Seq<(String, PartitionData)>,
    t1: Seq<(String, PartitionData)>,
    tv: TombV,
) -> bool {
    &&& t1.len() == t0.len()
    &&& forall|j: int| 0 <= j < t0.len() ==> delete_entry_effect(#[trigger] t0[j], t1[j], tv)
}

/// How the catalog looks after recording one delete: the tombstone keyed
/// by table, sequencer and sequence number exists; when it was already
/// there nothing changed, otherwise exactly one tombstone was appended,
/// carrying the delete's time range and predicate.
pub open spec fn delete_catalog_effect(
    c0: Catalog,
    c1: Catalog,
    table_id: i64,
    sequencer_id: i16,
    sequence_number: i64,
    pv: crate::delete::PredV,
    tv: TombV,
) -> bool {
    &&& has_tombstone(c1.tombstones@, table_id, sequencer_id, sequence_number)
    &&& if has_tombstone(c0.tombstones@, table_id, sequencer_id, sequence_number) {
        crate::catalog::same_core(c0, c1)
    } else {
        &&& tv.min_time == pv.start
        &&& tv.max_time == pv.end
        &&& tv.predicate == pv
        &&& c1 == (Catalog {
            tombstones: c1.tombstones,
            next_id: c1.next_id,
            faults: c1.faults,
            ..c0
        })
        &&& c1.next_id <= c0.next_id + 1
        &&& c1.tombstones@.len() == c0.tombstones@.len() + 1
        &&& c1.tombstones@.drop_last() == c0.tombstones@
        &&& tomb_v(c1.tombstones@.last()) == tv
    }
}


/// One write operation: per-table record batches tagged with the
/// operation's position in its sequencer's stream.
#[derive(Debug, PartialEq)]
pub struct DmlWrite {
    pub namespace: String,
    pub tables: Vec<(String, Batch)>,
    pub sequence_number: SequenceNumber,
}

/// One delete operation: a predicate against one table.
#[derive(Debug, PartialEq)]
pub struct DmlDelete {
    pub namespace: String,
    pub table_name: Option<String>,
    pub predicate: DeletePredicate,
    pub sequence_number: SequenceNumber,
}

/// An inbound operation of the write path.
#[derive(Debug, PartialEq)]
pub enum DmlOperation {
    Write(DmlWrite),
    Delete(DmlDelete),
}

impl DmlOperation {
    /// The namespace the operation addresses.
    pub fn namespace(&self) -> (r: &String)
        ensures
            r@ == match self {
                DmlOperation::Write(w) => w.namespace@,
                DmlOperation::Delete(d) => d.namespace@,
            },
    {
        match self {
            DmlOperation::Write(w) => &w.namespace,
            DmlOperation::Delete(d) => &d.namespace,
        }
    }
}

/// Inputs under which a write can be buffered: well-formed, distinctly
/// named batches that every affected partition can still append.
pub open spec fn write_ok(ns: NamespaceData, w: DmlWrite) -> bool {
    &&& keys_distinct(w.tables@)
    &&& forall|k: int| 0 <= k < w.tables@.len() ==> (#[trigger] w.tables@[k].1).wf()
    &&& forall|ti: int, pi: int, k: int|
        #![trigger ns.tables@[ti].1.partition_data@[pi].1.data_buffer.buffer@, w.tables@[k].1]
        0 <= ti < ns.tables@.len() && 0 <= pi < ns.tables@[ti].1.partition_data@.len() && 0 <= k
            < w.tables@.len() ==> can_append(
            ns.tables@[ti].1.partition_data@[pi].1.data_buffer.buffer@,
            w.sequence_number.0,
            w.tables@[k].1,
        )
}

/// The admission total after buffering a run of table batches, capping at
/// `usize::MAX` at each step.
pub open spec fn write_totals(t0: int, s: Seq<(String, Batch)>) -> int
    decreases s.len(),
{
    if s.len() == 0 {
        t0
    } else {
        sat_add_usize(write_totals(t0, s.drop_last()), batch_size_capped(s.last().1))
    }
}

/// Whether the batch `b`, written at sequence number `n`, sits in the
/// partition its timestamp names inside the table named `name`.
pub open spec fn write_landed(
    tables: Seq<(String, TableData)>,
    name: Seq<char>,
    n: i64,
    b: Batch,
) -> bool {
    exists|j: int|
        0 <= j < tables.len() && (#[trigger] tables[j].0@) == name && exists|p: int|
            0 <= p < tables[j].1.partition_data@.len() && (
            #[trigger] tables[j].1.partition_data@[p].0@) == date_key_of(
                batch_min_time(b).unwrap(),
            ) && tables[j].1.partition_data@[p].1.data_buffer.buffer@.contains(
                BufferBatch { sequencer_number: SequenceNumber(n), data: b },
            )
}

/// The buffered data of one namespace, keyed by table name.
#[derive(Debug, PartialEq)]
pub struct NamespaceData {
    pub namespace_id: NamespaceId,
    pub tables: Vec<(String, TableData)>,
}

impl NamespaceData {
    /// Table names are distinct and every table is well-formed.
    pub open spec fn wf(&self) -> bool {
        &&& keys_distinct(self.tables@)
        &&& forall|i: int| 0 <= i < self.tables@.len() ==> (#[trigger] self.tables@[i].1).wf()
    }

    /// An empty namespace buffer.
    pub fn new(namespace_id: NamespaceId) -> (r: Self)
        ensures
            r.namespace_id == namespace_id,
            r.tables@.len() == 0,
            r.wf(),
    {
        NamespaceData { namespace_id, tables: Vec::new() }
    }

    /// The buffered table data under the given name, if any.
    pub fn table_data(&self, table_name: &String) -> (r: Option<&TableData>)
        ensures
            match r {
                Option::Some(t) => exists|i: int|
                    0 <= i < self.tables@.len() && (#[trigger] self.tables@[i].0@) == table_name@
                        && *t == self.tables@[i].1,
                Option::None => !has_key(self.tables@, table_name@),
            },
    {
        match find_key(&self.tables, table_name) {
            Option::Some(i) => Option::Some(&self.tables[i].1),
            Option::None => Option::None,
        }
    }

    /// Looks the table up, or creates it in the catalog and the map.
    #[verifier::loop_isolation(false)]
    fn table_entry(&mut self, table_name: &String, catalog: &mut Catalog) -> (r: Result<
        usize,
        Error,
    >)
        requires
            old(self).wf(),
        ensures
            final(self).namespace_id == old(self).namespace_id,
            match r {
                Ok(i) => {
                    &&& final(self).wf()
                    &&& i < final(self).tables@.len()
                    &&& final(self).tables@[i as int].0@ == table_name@
                    &&& if has_key(old(self).tables@, table_name@) {
                        &&& *final(self) == *old(self)
                        &&& *final(catalog) == *old(catalog)
                        &&& i == key_idx(old(self).tables@, table_name@)
                    } else {
                        &&& i == old(self).tables@.len()
                        &&& final(self).tables@.len() == old(self).tables@.len() + 1
                        &&& final(self).tables@.take(old(self).tables@.len() as int) == old(
                            self,
                        ).tables@
                        &&& final(self).tables@[i as int].1.partition_data@.len() == 0
                        &&& fault_step(*old(catalog), *final(catalog), false)
                        &&& *final(catalog) == (Catalog {
                            tables: final(catalog).tables,
                            next_id: final(catalog).next_id,
                            faults: final(catalog).faults,
                            ..*old(catalog)
                        })
                        &&& final(catalog).tables@.take(old(catalog).tables@.len() as int) == old(
                            catalog,
                        ).tables@
                        &&& final(catalog).tables@.len() <= old(catalog).tables@.len() + 1
                        &&& final(catalog).next_id <= old(catalog).next_id + 1
                    }
                },
                Err(e) => {
                    &&& *final(self) == *old(self)
                    &&& match e {
                        Error::Catalog { source } => {
                            &&& crate::catalog::same_core(*old(catalog), *final(catalog))
                            &&& ((source is Unavailable && fault_step(
                                *old(catalog),
                                *final(catalog),
                                true,
                            )) || (source is IdSpaceExhausted && old(catalog).next_id
                                == i64::MAX))
                        },
                        _ => false,
                    }
                },
            },
    {
        match find_key(&self.tables, table_name) {
            Option::Some(i) => {
                proof {
                    lemma_key_idx(self.tables@, i as int);
                }
                Ok(i)
            },
            Option::None => {
                let table = match catalog.tables_create_or_get(table_name, self.namespace_id) {
                    Ok(t) => t,
                    Err(source) => {
                        return Err(Error::Catalog { source });
                    },
                };
                let td = TableData::new(table.id);
                let ghost t0 = self.tables@;
                let key = table_name.clone();
                self.tables.push((key, td));
                proof {
                    let t1 = self.tables@;
                    assert(t1.take(t0.len() as int) =~= t0);
                    assert forall|j: int| 0 <= j < t1.len() implies (#[trigger] t1[j].1).wf() by {
                        if j < t0.len() {
                            assert(t1[j] == t0[j]);
                        }
                    }
                    assert(keys_distinct(t1)) by {
                        assert forall|p: int, q: int|
                            0 <= p < q < t1.len() implies (#[trigger] t1[p].0@) != (
                        #[trigger] t1[q].0@) by {
                            if q < t0.len() {
                                assert(t0[p].0@ != t0[q].0@);
                            } else {
                                assert(t1[p] == t0[p]);
                                if t1[p].0@ == t1[q].0@ {
                                    assert(has_key(t0, t1[q].0@));
                                }
                            }
                        }
                    }
                }
                Ok(self.tables.len() - 1)
            },
        }
    }
}


impl NamespaceData {
    /// Buffers one operation.  A write routes each of its table batches to
    /// that table's date partition, accounting each against the admission
    /// tracker; tables and partitions are created lazily through the
    /// catalog.  A delete records a tombstone in the catalog and
    /// broadcasts it to the named table's partitions.  Reports whether
    /// ingestion should pause; deletes never pause.
    #[verifier::loop_isolation(false)]
    #[verifier::rlimit(40)]
    pub fn buffer_operation(
        &mut self,
        dml_operation: DmlOperation,
        sequencer_id: SequencerId,
        catalog: &mut Catalog,
        lifecycle_manager: &mut LifecycleManager,
    ) -> (r: Result<bool, Error>)
        requires
            old(self).wf(),
            dml_operation matches DmlOperation::Write(w) ==> write_ok(*old(self), w),
        ensures
            final(self).namespace_id == old(self).namespace_id,
            final(self).wf(),
            final(lifecycle_manager).config == old(lifecycle_manager).config,
            match r {
                Ok(pause) => {
                    &&& faults_prefix(old(catalog).faults@, final(catalog).faults@)
                    &&& final(catalog).next_id <= old(catalog).next_id + 2 * (match dml_operation {
                        DmlOperation::Write(w) => w.tables@.len() as int,
                        DmlOperation::Delete(d) => 1int,
                    })
                    &&& match dml_operation {
                        DmlOperation::Write(w) => {
                            &&& final(lifecycle_manager).total_bytes == write_totals(
                                old(lifecycle_manager).total_bytes as int,
                                w.tables@,
                            )
                            &&& pause == (w.tables@.len() > 0
                                && final(lifecycle_manager).total_bytes > old(
                                lifecycle_manager,
                            ).config.pause_ingest_size_bytes)
                            &&& forall|k: int|
                                0 <= k < w.tables@.len() ==> batch_min_time(
                                    #[trigger] w.tables@[k].1,
                                ) is Some && write_landed(
                                    final(self).tables@,
                                    w.tables@[k].0@,
                                    w.sequence_number.0,
                                    w.tables@[k].1,
                                )
                            &&& (ns_bufs_end_by(*old(self), w.sequence_number.0)
                                ==> ns_bufs_end_by(*final(self), w.sequence_number.0))
                            &&& (forall|m: int|
                                m >= 0 && #[trigger] ns_rows_bounded(*old(self), m)
                                    ==> ns_rows_bounded(
                                    *final(self),
                                    m + max_write_rows(w.tables@),
                                ))
                        },
                        DmlOperation::Delete(d) => {
                            &&& pause == false
                            &&& d.table_name is Some
                            &&& *final(lifecycle_manager) == *old(lifecycle_manager)
                            &&& has_tombstone(
                                final(catalog).tombstones@,
                                final(self).tables@[key_idx(
                                    final(self).tables@,
                                    d.table_name.unwrap()@,
                                )].1.table_id.0,
                                sequencer_id.0,
                                d.sequence_number.0,
                            )
                            &&& has_key(final(self).tables@, d.table_name.unwrap()@)
                        },
                    }
                },
                Err(e) => {
                    &&& (e is TimeColumnNotPresent || e is TableNotPresent || e matches
                        Error::Catalog { source })
                    // partial progress: tables are never dropped and keep
                    // their names, whatever step failed
                    &&& final(self).tables@.len() >= old(self).tables@.len()
                    &&& (forall|j: int|
                        0 <= j < old(self).tables@.len() ==> (#[trigger] final(self).tables@[j].0)
                            == old(self).tables@[j].0)
                    &&& match dml_operation {
                        DmlOperation::Write(w) => {
                            &&& !(e is TableNotPresent)
                            &&& (e is TimeColumnNotPresent ==> exists|kk: int|
                                0 <= kk < w.tables@.len() && batch_min_time(
                                    #[trigger] w.tables@[kk].1,
                                ) is None)
                            &&& (e matches Error::Catalog { source } ==> (source is Unavailable
                                && old(catalog).faults@.contains(true)) || (source
                                is IdSpaceExhausted && old(catalog).next_id + 2 * w.tables@.len()
                                >= i64::MAX))
                        },
                        DmlOperation::Delete(d) => {
                            &&& !(e is TimeColumnNotPresent)
                            &&& (e is TableNotPresent <==> d.table_name is None)
                            &&& (e is TableNotPresent ==> *final(self) == *old(self)
                                && *final(catalog) == *old(catalog)
                                && *final(lifecycle_manager) == *old(lifecycle_manager))
                            &&& (e matches Error::Catalog { source } ==> (source is Unavailable
                                && old(catalog).faults@.contains(true)) || (source
                                is IdSpaceExhausted && old(catalog).next_id + 2 >= i64::MAX))
                        },
                    }
                },
            },
    {
        match dml_operation {
            DmlOperation::Write(w) => {
                let ghost w0 = w.tables@;
                let ghost self0 = *old(self);
                let ghost old_len = old(self).tables@.len();
                let ghost t0lm = old(lifecycle_manager).total_bytes as int;
                let ghost limit = old(lifecycle_manager).config.pause_ingest_size_bytes;
                let mut w = w;
                let seq_no = w.sequence_number;
                let n = w.tables.len();
                let mut pause_writes = false;
                proof {
                    assert(faults_prefix(old(catalog).faults@, catalog.faults@)) by {
                        assert(catalog.faults@ =~= old(catalog).faults@.take(
                            catalog.faults@.len() as int,
                        ));
                    }
                }
                let mut k: usize = 0;
                while k < n
                    invariant
                        k <= n,
                        n == w0.len(),
                        w.tables@.len() == n,
                        w.sequence_number == seq_no,
                        forall|j: int| 0 <= j < n ==> (#[trigger] w.tables@[j].0) == w0[j].0,
                        forall|j: int| k <= j < n ==> (#[trigger] w.tables@[j].1) == w0[j].1,
                        self.wf(),
                        self.namespace_id == self0.namespace_id,
                        self.tables@.len() >= old_len,
                        forall|j: int|
                            0 <= j < old_len ==> (#[trigger] self.tables@[j].0) == self0.tables@[j].0,
                        forall|j: int|
                            0 <= j < old_len && (forall|kk: int|
                                0 <= kk < k ==> (#[trigger] w0[kk].0@) != self0.tables@[j].0@)
                                ==> (#[trigger] self.tables@[j].1) == self0.tables@[j].1,
                        forall|j: int, kk: int|
                            old_len <= j < self.tables@.len() && k <= kk < n ==> (
                            #[trigger] self.tables@[j].0@) != (#[trigger] w0[kk].0@),
                        lifecycle_manager.config == old(lifecycle_manager).config,
                        lifecycle_manager.total_bytes == write_totals(t0lm, w0.take(k as int)),
                        pause_writes == (k > 0 && lifecycle_manager.total_bytes > limit),
                        // catalog bookkeeping: the remaining fault schedule is a
                        // prefix of the original, and at most two identifiers
                        // were allocated per processed table
                        faults_prefix(old(catalog).faults@, catalog.faults@),
                        catalog.next_id <= old(catalog).next_id + 2 * (k as int),
                        forall|kk: int|
                            0 <= kk < k ==> batch_min_time(#[trigger] w0[kk].1) is Some
                                && write_landed(self.tables@, w0[kk].0@, seq_no.0, w0[kk].1),
                        ns_bufs_end_by(self0, seq_no.0) ==> ns_bufs_end_by(*self, seq_no.0),
                        forall|m: int|
                            m >= 0 && #[trigger] ns_rows_bounded(self0, m) ==> ns_rows_bounded(
                                *self,
                                m + max_write_rows(w0),
                            ),
                    decreases n - k,
                {
                    let ghost pre = *self;
                    let ghost lm_pre = *lifecycle_manager;
                    let ghost cat_pre = *catalog;
                    let mut b = Batch::new();
                    core::mem::swap(&mut b, &mut w.tables[k].1);
                    let i = match self.table_entry(&w.tables[k].0, catalog) {
                        Ok(i) => i,
                        Err(e) => {
                            proof {
                                if cat_pre.faults@.len() > 0 && cat_pre.faults@.last() == true {
                                    lemma_fault_came_from_schedule(
                                        old(catalog).faults@,
                                        cat_pre.faults@,
                                    );
                                }
                            }
                            return Err(e);
                        },
                    };
                    proof {
                        lemma_write_step_can_append(self0, pre, *self, w0, k as int, i as int, seq_no.0);
                        // the schedule prefix survives the lookup-or-create
                        lemma_faults_prefix_step(
                            old(catalog).faults@,
                            cat_pre.faults@,
                            catalog.faults@,
                        );
                    }
                    let ghost mid = *self;
                    let ghost cat_mid = *catalog;
                    let should_pause = match self.tables[i].1.buffer_table_write(
                        seq_no,
                        b,
                        sequencer_id,
                        catalog,
                        lifecycle_manager,
                    ) {
                        Ok(p) => p,
                        Err(e) => {
                            proof {
                                assert(self.tables@ =~= mid.tables@);
                                assert(batch_min_time(b) is None ==> batch_min_time(
                                    w0[k as int].1,
                                ) is None);
                                if cat_mid.faults@.len() > 0 && cat_mid.faults@.last() == true {
                                    lemma_fault_came_from_schedule(
                                        old(catalog).faults@,
                                        cat_mid.faults@,
                                    );
                                }
                                assert forall|j: int| 0 <= j < old_len implies (
                                #[trigger] self.tables@[j].0) == self0.tables@[j].0 by {
                                    assert(self.tables@[j] == mid.tables@[j]);
                                    if !has_key(pre.tables@, w0[k as int].0@) {
                                        assert(mid.tables@.take(pre.tables@.len() as int)[j]
                                            == pre.tables@[j]);
                                    }
                                    assert(mid.tables@[j] == pre.tables@[j]);
                                    assert(pre.tables@[j].0 == self0.tables@[j].0);
                                }
                            }
                            return Err(e);
                        },
                    };
                    pause_writes = pause_writes || should_pause;
                    proof {
                        // relate the step's before and after entries
                        assert forall|j: int|
                            0 <= j < pre.tables@.len() && j != i as int implies (
                        #[trigger] self.tables@[j]) == pre.tables@[j] by {
                            if !has_key(pre.tables@, w0[k as int].0@) {
                                assert(mid.tables@.take(pre.tables@.len() as int)[j]
                                    == pre.tables@[j]);
                            }
                            assert(mid.tables@[j] == pre.tables@[j]);
                            assert(self.tables@[j] == mid.tables@[j]);
                        }
                        assert forall|j: int|
                            0 <= j < pre.tables@.len() implies (#[trigger] self.tables@[j].0)
                            == pre.tables@[j].0 by {
                            if j == i as int {
                                assert(self.tables@[j].0 == mid.tables@[j].0);
                                if !has_key(pre.tables@, w0[k as int].0@) {
                                } else {
                                    assert(mid.tables@[j] == pre.tables@[j]);
                                }
                            }
                        }
                        // the batch landed in entry i's date partition
                        let pd0 = mid.tables@[i as int].1.partition_data@;
                        let pd1 = self.tables@[i as int].1.partition_data@;
                        let dkey = date_key_of(batch_min_time(w0[k as int].1).unwrap());
                        let bb = BufferBatch { sequencer_number: seq_no, data: w0[k as int].1 };
                        assert(table_write_effect(pd0, pd1, dkey, seq_no.0, w0[k as int].1));
                        if has_key(pd0, dkey) {
                            let pi = key_idx(pd0, dkey);
                            assert(pd1[pi].0 == pd0[pi].0);
                            assert(pd1[pi].1.data_buffer.buffer@.last() == bb);
                            assert(pd1[pi].1.data_buffer.buffer@.contains(bb));
                        } else {
                            let pi = pd1.len() - 1;
                            assert(pd1[pi].0@ == dkey);
                            assert(pd1[pi].1.data_buffer.buffer@[0] == bb);
                            assert(pd1[pi].1.data_buffer.buffer@.contains(bb));
                        }
                        assert(self.tables@[i as int].0@ == w0[k as int].0@);
                        assert(write_landed(self.tables@, w0[k as int].0@, seq_no.0, w0[k as int].1));
                        lemma_write_step_facts(
                            self0,
                            pre,
                            *self,
                            w0,
                            k as int,
                            i as int,
                            seq_no.0,
                        );
                        // every buffered run's fold grows by at most the
                        // write's largest batch
                        assert forall|m: int|
                            m >= 0 && #[trigger] ns_rows_bounded(self0, m) implies ns_rows_bounded(
                            *self,
                            m + max_write_rows(w0),
                        ) by {
                            lemma_max_write_rows(w0, k as int);
                            assert forall|ti: int, pi2: int|
                                0 <= ti < self.tables@.len() && 0 <= pi2 < self.tables@[
                            ti].1.partition_data@.len() implies fold_batches(
                                (#[trigger] self.tables@[ti].1.partition_data@[pi2]).1.data_buffer.buffer@,
                            ).rows <= m + max_write_rows(w0) by {
                                if ti != i as int {
                                    assert(self.tables@[ti] == mid.tables@[ti]);
                                    if ti < pre.tables@.len() {
                                        assert(mid.tables@[ti] == pre.tables@[ti]);
                                    } else {
                                        assert(mid.tables@[ti].1.partition_data@.len() == 0);
                                    }
                                } else {
                                    let pd0s = mid.tables@[i as int].1.partition_data@;
                                    let pd1s = self.tables@[i as int].1.partition_data@;
                                    let dk = date_key_of(batch_min_time(w0[k as int].1).unwrap());
                                    assert(table_write_effect(
                                        pd0s,
                                        pd1s,
                                        dk,
                                        seq_no.0,
                                        w0[k as int].1,
                                    ));
                                    if (i as int) < pre.tables@.len() {
                                        assert(mid.tables@[i as int] == pre.tables@[i as int]);
                                    } else {
                                        assert(pd0s.len() == 0);
                                    }
                                    if has_key(pd0s, dk) {
                                        if pi2 != key_idx(pd0s, dk) {
                                            assert(pd1s[pi2] == pd0s[pi2]);
                                        } else {
                                            lemma_fold_push_rows(
                                                pd0s[pi2].1.data_buffer.buffer@,
                                                BufferBatch {
                                                    sequencer_number: seq_no,
                                                    data: w0[k as int].1,
                                                },
                                            );
                                        }
                                    } else {
                                        if pi2 < pd0s.len() {
                                            assert(pd1s[pi2] == pd0s[pi2]);
                                        } else {
                                            assert(pd1s[pi2].1.data_buffer.buffer@ =~= Seq::empty().push(
                                                BufferBatch {
                                                    sequencer_number: seq_no,
                                                    data: w0[k as int].1,
                                                },
                                            ));
                                            lemma_fold_push_rows(
                                                Seq::empty(),
                                                BufferBatch {
                                                    sequencer_number: seq_no,
                                                    data: w0[k as int].1,
                                                },
                                            );
                                        }
                                    }
                                }
                            }
                        }
                        // every buffered run still ends at or below the
                        // write's sequence number
                        if ns_bufs_end_by(self0, seq_no.0) {
                            assert forall|ti: int, pi2: int|
                                0 <= ti < self.tables@.len() && 0 <= pi2 < self.tables@[
                            ti].1.partition_data@.len() implies {
                                let buf = (
                                #[trigger] self.tables@[ti].1.partition_data@[pi2]).1.data_buffer.buffer@;
                                buf.len() == 0 || buf.last().sequencer_number.0 <= seq_no.0
                            } by {
                                if ti != i as int {
                                    assert(self.tables@[ti] == mid.tables@[ti]);
                                    if ti < pre.tables@.len() {
                                        assert(mid.tables@[ti] == pre.tables@[ti]);
                                    } else {
                                        assert(mid.tables@[ti].1.partition_data@.len() == 0);
                                    }
                                } else {
                                    let pd0s = mid.tables@[i as int].1.partition_data@;
                                    let pd1s = self.tables@[i as int].1.partition_data@;
                                    let dk = date_key_of(batch_min_time(w0[k as int].1).unwrap());
                                    assert(table_write_effect(
                                        pd0s,
                                        pd1s,
                                        dk,
                                        seq_no.0,
                                        w0[k as int].1,
                                    ));
                                    if (i as int) < pre.tables@.len() {
                                        assert(mid.tables@[i as int] == pre.tables@[i as int]);
                                    } else {
                                        assert(pd0s.len() == 0);
                                    }
                                    if has_key(pd0s, dk) {
                                        if pi2 != key_idx(pd0s, dk) {
                                            assert(pd1s[pi2] == pd0s[pi2]);
                                        } else {
                                            assert(pd1s[pi2].1.data_buffer.buffer@.last().sequencer_number.0
                                                == seq_no.0);
                                        }
                                    } else {
                                        if pi2 < pd0s.len() {
                                            assert(pd1s[pi2] == pd0s[pi2]);
                                        } else {
                                            assert(pd1s[pi2].1.data_buffer.buffer@.last().sequencer_number.0
                                                == seq_no.0);
                                        }
                                    }
                                }
                            }
                        }
                        // the admission total only grows, so the pause flag
                        // reflects the latest total
                        crate::scan::lemma_columns_size_nonneg(w0[k as int].1.columns@);
                        assert(w0.take(k as int + 1).drop_last() =~= w0.take(k as int));
                        assert(w0.take(k as int + 1).last() == w0[k as int]);
                        assert(lifecycle_manager.total_bytes == write_totals(
                            t0lm,
                            w0.take(k as int + 1),
                        ));
                        assert(lifecycle_manager.total_bytes >= lm_pre.total_bytes);
                        // the schedule prefix survives the buffered write
                        lemma_faults_prefix_step(
                            old(catalog).faults@,
                            cat_mid.faults@,
                            catalog.faults@,
                        );
                    }
                    k += 1;
                }
                proof {
                    assert(w0.take(n as int) =~= w0);
                }
                Ok(pause_writes)
            },
            DmlOperation::Delete(d) => {
                let table_name = match &d.table_name {
                    Option::Some(t) => t,
                    Option::None => {
                        return Err(Error::TableNotPresent);
                    },
                };
                let ghost cat_pre = *catalog;
                proof {
                    assert(faults_prefix(old(catalog).faults@, cat_pre.faults@)) by {
                        assert(cat_pre.faults@ =~= old(catalog).faults@.take(
                            cat_pre.faults@.len() as int,
                        ));
                    }
                }
                let i = match self.table_entry(table_name, catalog) {
                    Ok(i) => i,
                    Err(e) => {
                        proof {
                            if cat_pre.faults@.len() > 0 && cat_pre.faults@.last() == true {
                                lemma_fault_came_from_schedule(
                                    old(catalog).faults@,
                                    cat_pre.faults@,
                                );
                            }
                        }
                        return Err(e);
                    },
                };
                let ghost pre = *self;
                let ghost cat_mid = *catalog;
                proof {
                    lemma_faults_prefix_step(
                        old(catalog).faults@,
                        cat_pre.faults@,
                        catalog.faults@,
                    );
                }
                match self.tables[i].1.buffer_delete(
                    &d.predicate,
                    sequencer_id,
                    d.sequence_number,
                    catalog,
                ) {
                    Ok(_) => {
                        proof {
                            lemma_faults_prefix_step(
                                old(catalog).faults@,
                                cat_mid.faults@,
                                catalog.faults@,
                            );
                        }
                    },
                    Err(e) => {
                        proof {
                            assert(self.tables@ =~= pre.tables@);
                            if cat_mid.faults@.len() > 0 && cat_mid.faults@.last() == true {
                                lemma_fault_came_from_schedule(
                                    old(catalog).faults@,
                                    cat_mid.faults@,
                                );
                            }
                        }
                        return Err(e);
                    },
                };
                proof {
                    let t1 = self.tables@;
                    assert(t1.len() == pre.tables@.len());
                    assert forall|p: int, q: int|
                        0 <= p < q < t1.len() implies (#[trigger] t1[p].0@) != (
                    #[trigger] t1[q].0@) by {
                        if p != i && q != i {
                            assert(t1[p] == pre.tables@[p]);
                            assert(t1[q] == pre.tables@[q]);
                        } else if p == i {
                            assert(t1[q] == pre.tables@[q]);
                        } else {
                            assert(t1[p] == pre.tables@[p]);
                        }
                        assert(pre.tables@[p].0@ != pre.tables@[q].0@);
                    }
                    assert forall|j: int| 0 <= j < t1.len() implies (#[trigger] t1[j].1).wf() by {
                        if j != i {
                            assert(t1[j] == pre.tables@[j]);
                        }
                    }
                    assert(t1[i as int].0@ == table_name@);
                    lemma_key_idx(t1, i as int);
                }
                Ok(false)
            },
        }
    }
}

/// The namespace an operation addresses.
pub open spec fn op_namespace(op: DmlOperation) -> Seq<char> {
    match op {
        DmlOperation::Write(w) => w.namespace@,
        DmlOperation::Delete(d) => d.namespace@,
    }
}

/// Every buffered run in the namespace ends at or below sequence `n`:
/// what a caller needs to append the next operation of the stream.
pub open spec fn ns_bufs_end_by(nd: NamespaceData, n: i64) -> bool {
    forall|ti: int, pi: int|
        0 <= ti < nd.tables@.len() && 0 <= pi < nd.tables@[ti].1.partition_data@.len() ==> {
            let buf = (#[trigger] nd.tables@[ti].1.partition_data@[pi]).1.data_buffer.buffer@;
            buf.len() == 0 || buf.last().sequencer_number.0 <= n
        }
}

/// Every buffered run in the namespace folds to at most `m` rows.
pub open spec fn ns_rows_bounded(nd: NamespaceData, m: int) -> bool {
    forall|ti: int, pi: int|
        0 <= ti < nd.tables@.len() && 0 <= pi < nd.tables@[ti].1.partition_data@.len()
            ==> fold_batches(
            (#[trigger] nd.tables@[ti].1.partition_data@[pi]).1.data_buffer.buffer@,
        ).rows <= m
}

/// The largest row count among a write's table batches.
pub open spec fn max_write_rows(s: Seq<(String, Batch)>) -> int
    decreases s.len(),
{
    if s.len() == 0 {
        0
    } else {
        let r = max_write_rows(s.drop_last());
        if s.last().1@.rows > r {
            s.last().1@.rows as int
        } else {
            r
        }
    }
}

/// Every batch of the write is within the write's largest row count.
pub proof fn lemma_max_write_rows(s: Seq<(String, Batch)>, k: int)
    requires
        0 <= k < s.len(),
    ensures
        s[k].1@.rows <= max_write_rows(s),
        max_write_rows(s) >= 0,
    decreases s.len(),
{
    if k == s.len() - 1 {
        if s.len() > 1 {
            lemma_max_write_rows(s.drop_last(), 0);
        }
    } else {
        lemma_max_write_rows(s.drop_last(), k);
    }
}

/// Appending one batch adds exactly its rows to the fold.
pub proof fn lemma_fold_push_rows(s: Seq<BufferBatch>, b: BufferBatch)
    ensures
        fold_batches(s.push(b)).rows == fold_batches(s).rows + b.data@.rows,
{
    assert(s.push(b).drop_last() =~= s);
    assert(s.push(b).last() == b);
}

/// Inputs on which the write path owes success at a sequencer: the
/// operation's namespace is known in memory or to the catalog, the
/// operation is well-shaped, no fault is scheduled, and identifier
/// headroom remains.
pub open spec fn op_acceptable_at(
    sd: SequencerData,
    c: Catalog,
    op: DmlOperation,
) -> bool {
    &&& has_key(sd.namespaces@, op_namespace(op)) || crate::catalog::has_namespace(
        c.namespaces@,
        op_namespace(op),
    )
    &&& match op {
        DmlOperation::Write(w) => forall|k: int|
            0 <= k < w.tables@.len() ==> batch_min_time(#[trigger] w.tables@[k].1) is Some,
        DmlOperation::Delete(d) => d.table_name is Some,
    }
    &&& !c.faults@.contains(true)
    &&& match op {
        DmlOperation::Write(w) => c.next_id + 2 * w.tables@.len() < i64::MAX,
        DmlOperation::Delete(d) => c.next_id + 2 < i64::MAX,
    }
}

/// Whether `cur` is what is left of the fault schedule `orig` after some
/// calls consumed entries from its end.
pub open spec fn faults_prefix(orig: Seq<bool>, cur: Seq<bool>) -> bool {
    &&& cur.len() <= orig.len()
    &&& cur == orig.take(cur.len() as int)
}

/// A prefix of a schedule without scheduled faults has none either.
pub proof fn lemma_prefix_no_fault(orig: Seq<bool>, cur: Seq<bool>)
    requires
        faults_prefix(orig, cur),
        !orig.contains(true),
    ensures
        !cur.contains(true),
{
    if cur.contains(true) {
        let w = choose|w: int| 0 <= w < cur.len() && cur[w] == true;
        assert(orig[w] == true);
    }
}

/// One catalog call keeps the remaining schedule a prefix: it either
/// leaves it alone or consumes its last entry.
pub proof fn lemma_faults_prefix_step(orig: Seq<bool>, pre: Seq<bool>, post: Seq<bool>)
    requires
        faults_prefix(orig, pre),
        post == pre || (pre.len() > 0 && post == pre.drop_last()),
    ensures
        faults_prefix(orig, post),
{
    if post != pre {
        assert(post =~= orig.take(post.len() as int));
    }
}

/// Schedule prefixes compose.
pub proof fn lemma_faults_prefix_trans(a: Seq<bool>, b: Seq<bool>, c: Seq<bool>)
    requires
        faults_prefix(a, b),
        faults_prefix(b, c),
    ensures
        faults_prefix(a, c),
{
    assert(c =~= a.take(c.len() as int));
}

/// When a mid-run catalog call fails, the failing entry it consumed was
/// one of the original schedule's entries: the schedule contains `true`.
pub proof fn lemma_fault_came_from_schedule(orig: Seq<bool>, pre: Seq<bool>)
    requires
        faults_prefix(orig, pre),
        pre.len() > 0,
        pre.last() == true,
    ensures
        orig.contains(true),
{
    assert(orig[pre.len() - 1] == true);
}

/// Before the write of step `k` lands, the table entry chosen for it can
/// still take the batch: it is either untouched since the start of the
/// operation or freshly created empty.
proof fn lemma_write_step_can_append(
    self0: NamespaceData,
    pre: NamespaceData,
    cur: NamespaceData,
    w0: Seq<(String, Batch)>,
    k: int,
    i: int,
    n: i64,
)
    requires
        0 <= k < w0.len(),
        keys_distinct(w0),
        forall|ti: int, pi: int, kk: int|
            #![trigger self0.tables@[ti].1.partition_data@[pi].1.data_buffer.buffer@, w0[kk].1]
            0 <= ti < self0.tables@.len() && 0 <= pi < self0.tables@[ti].1.partition_data@.len()
                && 0 <= kk < w0.len() ==> can_append(
                self0.tables@[ti].1.partition_data@[pi].1.data_buffer.buffer@,
                n,
                w0[kk].1,
            ),
        // facts carried by the loop invariant, relating pre to self0
        pre.tables@.len() >= self0.tables@.len(),
        forall|j: int|
            0 <= j < self0.tables@.len() ==> (#[trigger] pre.tables@[j].0) == self0.tables@[j].0,
        forall|j: int|
            0 <= j < self0.tables@.len() && (forall|kk: int|
                0 <= kk < k ==> (#[trigger] w0[kk].0@) != self0.tables@[j].0@) ==> (
            #[trigger] pre.tables@[j].1) == self0.tables@[j].1,
        forall|j: int, kk: int|
            self0.tables@.len() <= j < pre.tables@.len() && k <= kk < w0.len() ==> (
            #[trigger] pre.tables@[j].0@) != (#[trigger] w0[kk].0@),
        // facts from the lookup-or-create step
        0 <= i < cur.tables@.len(),
        cur.tables@[i].0@ == w0[k].0@,
        if has_key(pre.tables@, w0[k].0@) {
            cur == pre && i == key_idx(pre.tables@, w0[k].0@)
        } else {
            i == pre.tables@.len() && cur.tables@.take(pre.tables@.len() as int) == pre.tables@
                && cur.tables@[i].1.partition_data@.len() == 0
        },
    ensures
        forall|pi: int|
            0 <= pi < cur.tables@[i].1.partition_data@.len() ==> can_append(
                (#[trigger] cur.tables@[i].1.partition_data@[pi].1).data_buffer.buffer@,
                n,
                w0[k].1,
            ),
{
    assert forall|pi: int|
        0 <= pi < cur.tables@[i].1.partition_data@.len() implies can_append(
        (#[trigger] cur.tables@[i].1.partition_data@[pi].1).data_buffer.buffer@,
        n,
        w0[k].1,
    ) by {
        if has_key(pre.tables@, w0[k].0@) {
            let j = key_idx(pre.tables@, w0[k].0@);
            assert(cur.tables@[i] == pre.tables@[j]);
            if j < self0.tables@.len() {
                // untouched: no processed write named this table
                assert forall|kk: int| 0 <= kk < k implies (#[trigger] w0[kk].0@)
                    != self0.tables@[j].0@ by {
                    if w0[kk].0@ == self0.tables@[j].0@ {
                        assert(w0[kk].0@ == w0[k].0@);
                    }
                }
                assert(pre.tables@[j].1 == self0.tables@[j].1);
                assert(can_append(
                    self0.tables@[j].1.partition_data@[pi].1.data_buffer.buffer@,
                    n,
                    w0[k].1,
                ));
            } else {
                // an appended entry never carries an unprocessed write's name
                assert(pre.tables@[j].0@ != w0[k].0@);
                assert(false);
            }
        }
    }
}

/// After the write of step `k` lands, the per-step loop facts are
/// re-established: processed writes stay landed and untouched tables stay
/// untouched.
proof fn lemma_write_step_facts(
    self0: NamespaceData,
    pre: NamespaceData,
    cur: NamespaceData,
    w0: Seq<(String, Batch)>,
    k: int,
    i: int,
    n: i64,
)
    requires
        0 <= k < w0.len(),
        keys_distinct(w0),
        // pre-step invariant
        pre.tables@.len() >= self0.tables@.len(),
        forall|j: int|
            0 <= j < self0.tables@.len() ==> (#[trigger] pre.tables@[j].0) == self0.tables@[j].0,
        forall|j: int|
            0 <= j < self0.tables@.len() && (forall|kk: int|
                0 <= kk < k ==> (#[trigger] w0[kk].0@) != self0.tables@[j].0@) ==> (
            #[trigger] pre.tables@[j].1) == self0.tables@[j].1,
        forall|j: int, kk: int|
            self0.tables@.len() <= j < pre.tables@.len() && k <= kk < w0.len() ==> (
            #[trigger] pre.tables@[j].0@) != (#[trigger] w0[kk].0@),
        forall|kk: int|
            0 <= kk < k ==> batch_min_time(#[trigger] w0[kk].1) is Some && write_landed(
                pre.tables@,
                w0[kk].0@,
                n,
                w0[kk].1,
            ),
        keys_distinct(cur.tables@),
        cur.tables@.len() == pre.tables@.len() + 1 ==> i == pre.tables@.len(),
        // the step: entry i carries the write's table, every other entry of
        // pre persists at its index, at most one entry was appended
        cur.tables@.len() >= pre.tables@.len(),
        cur.tables@.len() <= pre.tables@.len() + 1,
        0 <= i < cur.tables@.len(),
        cur.tables@[i].0@ == w0[k].0@,
        forall|j: int|
            0 <= j < pre.tables@.len() && j != i ==> (#[trigger] cur.tables@[j]) == pre.tables@[j],
        forall|j: int|
            0 <= j < pre.tables@.len() ==> (#[trigger] cur.tables@[j].0) == pre.tables@[j].0,
        batch_min_time(w0[k].1) is Some,
        write_landed(cur.tables@, w0[k].0@, n, w0[k].1),
    ensures
        cur.tables@.len() >= self0.tables@.len(),
        forall|j: int|
            0 <= j < self0.tables@.len() ==> (#[trigger] cur.tables@[j].0) == self0.tables@[j].0,
        forall|j: int|
            0 <= j < self0.tables@.len() && (forall|kk: int|
                0 <= kk < k + 1 ==> (#[trigger] w0[kk].0@) != self0.tables@[j].0@) ==> (
            #[trigger] cur.tables@[j].1) == self0.tables@[j].1,
        forall|j: int, kk: int|
            self0.tables@.len() <= j < cur.tables@.len() && k + 1 <= kk < w0.len() ==> (
            #[trigger] cur.tables@[j].0@) != (#[trigger] w0[kk].0@),
        forall|kk: int|
            0 <= kk < k + 1 ==> batch_min_time(#[trigger] w0[kk].1) is Some && write_landed(
                cur.tables@,
                w0[kk].0@,
                n,
                w0[kk].1,
            ),
{
    assert forall|j: int|
        0 <= j < self0.tables@.len() && (forall|kk: int|
            0 <= kk < k + 1 ==> (#[trigger] w0[kk].0@) != self0.tables@[j].0@) implies (
    #[trigger] cur.tables@[j].1) == self0.tables@[j].1 by {
        assert(w0[k].0@ != self0.tables@[j].0@);
        assert(cur.tables@[j].0 == self0.tables@[j].0);
        if j == i {
            assert(cur.tables@[i].0@ == w0[k].0@);
            assert(false);
        }
        assert(cur.tables@[j] == pre.tables@[j]);
        assert(pre.tables@[j].1 == self0.tables@[j].1);
    }
    assert forall|j: int, kk: int|
        self0.tables@.len() <= j < cur.tables@.len() && k + 1 <= kk < w0.len() implies (
    #[trigger] cur.tables@[j].0@) != (#[trigger] w0[kk].0@) by {
        if j < pre.tables@.len() {
            assert(cur.tables@[j].0 == pre.tables@[j].0);
            assert(pre.tables@[j].0@ != w0[kk].0@);
        } else {
            assert(j == i);
            assert(cur.tables@[j].0@ == w0[k].0@);
            assert(w0[k].0@ != w0[kk].0@);
        }
    }
    assert forall|kk: int|
        0 <= kk < k + 1 implies batch_min_time(#[trigger] w0[kk].1) is Some && write_landed(
        cur.tables@,
        w0[kk].0@,
        n,
        w0[kk].1,
    ) by {
        if kk < k {
            let j = choose|j: int|
                0 <= j < pre.tables@.len() && (#[trigger] pre.tables@[j].0@) == w0[kk].0@
                    && exists|p: int|
                    0 <= p < pre.tables@[j].1.partition_data@.len() && (
                    #[trigger] pre.tables@[j].1.partition_data@[p].0@) == date_key_of(
                        batch_min_time(w0[kk].1).unwrap(),
                    ) && pre.tables@[j].1.partition_data@[p].1.data_buffer.buffer@.contains(
                        BufferBatch { sequencer_number: SequenceNumber(n), data: w0[kk].1 },
                    );
            if j == i {
                assert(pre.tables@[i].0 == cur.tables@[i].0);
                assert(w0[kk].0@ == w0[k].0@);
                assert(false);
            }
            assert(cur.tables@[j] == pre.tables@[j]);
            assert(write_landed(cur.tables@, w0[kk].0@, n, w0[kk].1));
        }
    }
}


impl NamespaceData {
    /// Clears the named partition's persisting stage; removes the
    /// partition when it holds no more data, and the table when it has no
    /// partitions left.  On a table or partition that is already gone this
    /// is a safe no-op, so running the cleanup twice changes nothing.
    #[verifier::loop_isolation(false)]
    #[verifier::rlimit(60)]
    pub fn mark_persisted_and_remove_if_empty(
        &mut self,
        table_name: &String,
        partition_key: &String,
    )
        requires
            old(self).wf(),
        ensures
            final(self).namespace_id == old(self).namespace_id,
            final(self).wf(),
            !has_key(old(self).tables@, table_name@) ==> *final(self) == *old(self),
            has_key(old(self).tables@, table_name@) ==> mark_persisted_effect(
                old(self).tables@,
                final(self).tables@,
                table_name@,
                partition_key@,
            ),
    {
        let i = match find_key(&self.tables, table_name) {
            Option::Some(i) => i,
            Option::None => {
                return ;
            },
        };
        proof {
            lemma_key_idx(self.tables@, i as int);
        }
        let ghost s0 = self.tables@;
        let ghost t = s0[i as int].1;
        match find_key(&self.tables[i].1.partition_data, partition_key) {
            Option::Some(j) => {
                proof {
                    lemma_key_idx(t.partition_data@, j as int);
                }
                let now_empty = self.tables[i].1.partition_data[j].1.clear_persisting();
                proof {
                    lemma_entry_still_keyed(s0, self.tables@, i as int);
                }
                if now_empty {
                    self.tables[i].1.partition_data.remove(j);
                    proof {
                        t.partition_data@.remove_ensures(j as int);
                        lemma_keyed_remove_wf(t.partition_data@, j as int);
                        assert(self.tables@[i as int].1.partition_data@ =~= t.partition_data@.remove(
                            j as int,
                        ));
                        lemma_entry_still_keyed(s0, self.tables@, i as int);
                        assert forall|p: int|
                            0 <= p < self.tables@[i as int].1.partition_data@.len() implies (
                        #[trigger] self.tables@[i as int].1.partition_data@[p].1).wf() by {
                            let pd1 = self.tables@[i as int].1.partition_data@;
                            if p < j as int {
                                assert(pd1[p] == t.partition_data@[p]);
                            } else {
                                assert(pd1[p] == t.partition_data@[p + 1]);
                            }
                        }
                    }
                } else {
                    proof {
                        let pd1 = self.tables@[i as int].1.partition_data@;
                        assert forall|p: int, q: int|
                            0 <= p < q < pd1.len() implies (#[trigger] pd1[p].0@) != (
                        #[trigger] pd1[q].0@) by {
                            if p != j as int {
                                assert(pd1[p] == t.partition_data@[p]);
                            }
                            if q != j as int {
                                assert(pd1[q] == t.partition_data@[q]);
                            }
                            assert(t.partition_data@[p].0@ != t.partition_data@[q].0@);
                        }
                        assert forall|p: int| 0 <= p < pd1.len() implies (
                        #[trigger] pd1[p].1).wf() by {
                            if p != j as int {
                                assert(pd1[p] == t.partition_data@[p]);
                            }
                        }
                    }
                }
            },
            Option::None => {},
        }
        let ghost s_mid = self.tables@;
        proof {
            // only entry i may have changed, and only in its partition list
            assert forall|q: int| 0 <= q < s0.len() && q != i as int implies (
            #[trigger] s_mid[q]) == s0[q] by {}
            assert(s_mid.len() == s0.len());
            assert(s_mid[i as int].0 == s0[i as int].0);
            assert(keys_distinct(s_mid)) by {
                assert forall|p: int, q: int|
                    0 <= p < q < s_mid.len() implies (#[trigger] s_mid[p].0@) != (
                #[trigger] s_mid[q].0@) by {
                    assert(s_mid[p].0 == s0[p].0);
                    assert(s_mid[q].0 == s0[q].0);
                    assert(s0[p].0@ != s0[q].0@);
                }
            }
        }
        if self.tables[i].1.partition_data.len() == 0 {
            self.tables.remove(i);
            proof {
                s_mid.remove_ensures(i as int);
                lemma_keyed_remove_wf(s_mid, i as int);
                assert(self.tables@ =~= s0.remove(i as int)) by {
                    s0.remove_ensures(i as int);
                    assert forall|p: int|
                        0 <= p < s_mid.remove(i as int).len() implies (#[trigger] s_mid.remove(
                        i as int,
                    )[p]) == s0.remove(i as int)[p] by {
                        if p < i as int {
                            assert(s_mid.remove(i as int)[p] == s_mid[p]);
                            assert(s0.remove(i as int)[p] == s0[p]);
                        } else {
                            assert(s_mid.remove(i as int)[p] == s_mid[p + 1]);
                            assert(s0.remove(i as int)[p] == s0[p + 1]);
                        }
                    }
                }
                assert forall|p: int| 0 <= p < self.tables@.len() implies (
                #[trigger] self.tables@[p].1).wf() by {
                    if p < i as int {
                        assert(self.tables@[p] == s_mid[p]);
                        assert(s_mid[p] == s0[p]);
                    } else {
                        assert(self.tables@[p] == s_mid[p + 1]);
                        assert(s_mid[p + 1] == s0[p + 1]);
                    }
                }
            }
        }
    }
}

/// A change to an entry's partition list keeps the map's keys and the
/// other entries intact.
pub proof fn lemma_entry_still_keyed(
    s0: Seq<(String, TableData)>,
    s1: Seq<(String, TableData)>,
    i: int,
)
    requires
        0 <= i < s0.len(),
        s1.len() == s0.len(),
        forall|q: int| 0 <= q < s0.len() && q != i ==> (#[trigger] s1[q]) == s0[q],
        s1[i].0 == s0[i].0,
        keys_distinct(s0),
    ensures
        keys_distinct(s1),
        forall|q: int| 0 <= q < s0.len() ==> (#[trigger] s1[q].0) == s0[q].0,
{
    assert forall|p: int, q: int|
        0 <= p < q < s1.len() implies (#[trigger] s1[p].0@) != (#[trigger] s1[q].0@) by {
        if p != i {
            assert(s1[p] == s0[p]);
        }
        if q != i {
            assert(s1[q] == s0[q]);
        }
        assert(s0[p].0@ != s0[q].0@);
    }
}

/// Removing one entry of a distinctly-keyed list keeps the keys distinct.
pub proof fn lemma_keyed_remove_wf<T>(s: Seq<(String, T)>, i: int)
    requires
        0 <= i < s.len(),
        keys_distinct(s),
    ensures
        keys_distinct(s.remove(i)),
{
    s.remove_ensures(i);
    assert forall|p: int, q: int|
        0 <= p < q < s.remove(i).len() implies (#[trigger] s.remove(i)[p].0@) != (
    #[trigger] s.remove(i)[q].0@) by {
        let p2: int = if p < i {
            p
        } else {
            p + 1
        };
        let q2: int = if q < i {
            q
        } else {
            q + 1
        };
        assert(s.remove(i)[p] == s[p2]);
        assert(s.remove(i)[q] == s[q2]);
        assert(s[p2].0@ != s[q2].0@);
    }
}

/// How a namespace's table map looks after the cleanup of one partition.
pub open spec fn mark_persisted_effect(
    s0: Seq<(String, TableData)>,
    s1: Seq<(String, TableData)>,
    table: Seq<char>,
    key: Seq<char>,
) -> bool {
    let i = key_idx(s0, table);
    let t = s0[i].1;
    if !has_key(t.partition_data@, key) {
        if t.partition_data@.len() == 0 {
            s1 == s0.remove(i)
        } else {
            s1 == s0
        }
    } else {
        let j = key_idx(t.partition_data@, key);
        let pd = t.partition_data@[j].1;
        if pd.data_buffer.snapshots@.len() == 0 && pd.data_buffer.buffer@.len() == 0 {
            if t.partition_data@.len() == 1 {
                s1 == s0.remove(i)
            } else {
                &&& s1.len() == s0.len()
                &&& forall|q: int| 0 <= q < s0.len() && q != i ==> (#[trigger] s1[q]) == s0[q]
                &&& s1[i].0 == s0[i].0
                &&& s1[i].1.table_id == t.table_id
                &&& s1[i].1.partition_data@ == t.partition_data@.remove(j)
            }
        } else {
            &&& s1.len() == s0.len()
            &&& forall|q: int| 0 <= q < s0.len() && q != i ==> (#[trigger] s1[q]) == s0[q]
            &&& s1[i].0 == s0[i].0
            &&& s1[i].1.table_id == t.table_id
            &&& s1[i].1.partition_data@.len() == t.partition_data@.len()
            &&& forall|p: int|
                0 <= p < t.partition_data@.len() && p != j ==> (#[trigger] s1[i].1.partition_data@[p])
                    == t.partition_data@[p]
            &&& s1[i].1.partition_data@[j].0 == t.partition_data@[j].0
            &&& s1[i].1.partition_data@[j].1.id == pd.id
            &&& s1[i].1.partition_data@[j].1.data_buffer.buffer == pd.data_buffer.buffer
            &&& s1[i].1.partition_data@[j].1.data_buffer.deletes == pd.data_buffer.deletes
            &&& s1[i].1.partition_data@[j].1.data_buffer.snapshots == pd.data_buffer.snapshots
            &&& s1[i].1.partition_data@[j].1.data_buffer.persisting is None
        }
    }
}

/// The buffered namespaces of one sequencer, keyed by namespace name.
#[derive(Debug, PartialEq)]
pub struct SequencerData {
    pub namespaces: Vec<(String, NamespaceData)>,
}

impl Default for SequencerData {
    fn default() -> (r: Self)
        ensures
            r.namespaces@.len() == 0,
            r.wf(),
    {
        SequencerData { namespaces: Vec::new() }
    }
}

impl SequencerData {
    /// Namespace names are distinct and every namespace is well-formed.
    pub open spec fn wf(&self) -> bool {
        &&& keys_distinct(self.namespaces@)
        &&& forall|i: int| 0 <= i < self.namespaces@.len() ==> (#[trigger] self.namespaces@[i].1).wf()
    }

    /// The buffered namespace data under the given name, if any.
    pub fn namespace(&self, namespace: &String) -> (r: Option<&NamespaceData>)
        ensures
            match r {
                Option::Some(ns) => exists|i: int|
                    0 <= i < self.namespaces@.len() && (#[trigger] self.namespaces@[i].0@)
                        == namespace@ && *ns == self.namespaces@[i].1,
                Option::None => !has_key(self.namespaces@, namespace@),
            },
    {
        match find_key(&self.namespaces, namespace) {
            Option::Some(i) => Option::Some(&self.namespaces[i].1),
            Option::None => Option::None,
        }
    }

    /// Routes one operation to its namespace, looking the namespace up in
    /// the catalog on first reference; namespaces must pre-exist there.
    #[verifier::loop_isolation(false)]
    pub fn buffer_operation(
        &mut self,
        dml_operation: DmlOperation,
        sequencer_id: SequencerId,
        catalog: &mut Catalog,
        lifecycle_manager: &mut LifecycleManager,
    ) -> (r: Result<bool, Error>)
        requires
            old(self).wf(),
            forall|i: int|
                0 <= i < old(self).namespaces@.len() ==> (dml_operation matches DmlOperation::Write(
                    w,
                ) ==> write_ok((#[trigger] old(self).namespaces@[i].1), w)),
            dml_operation matches DmlOperation::Write(w) ==> keys_distinct(w.tables@) && (forall|
                k: int,
            |
                0 <= k < w.tables@.len() ==> (#[trigger] w.tables@[k].1).wf()),
        ensures
            final(self).wf(),
            final(lifecycle_manager).config == old(lifecycle_manager).config,
            match r {
                Ok(pause) => {
                    &&& faults_prefix(old(catalog).faults@, final(catalog).faults@)
                    &&& final(catalog).next_id <= old(catalog).next_id + 2 * (match dml_operation {
                        DmlOperation::Write(w) => w.tables@.len() as int,
                        DmlOperation::Delete(d) => 1int,
                    })
                    // the targeted namespace exists afterwards; everything
                    // else in the map is untouched, a new entry lands at the
                    // end
                    &&& has_key(final(self).namespaces@, op_namespace(dml_operation))
                    &&& if has_key(old(self).namespaces@, op_namespace(dml_operation)) {
                        &&& final(self).namespaces@.len() == old(self).namespaces@.len()
                        &&& (forall|j: int|
                            0 <= j < old(self).namespaces@.len() && j != key_idx(
                                old(self).namespaces@,
                                op_namespace(dml_operation),
                            ) ==> (#[trigger] final(self).namespaces@[j]) == old(
                                self,
                            ).namespaces@[j])
                        &&& final(self).namespaces@[key_idx(
                            old(self).namespaces@,
                            op_namespace(dml_operation),
                        )].0 == old(self).namespaces@[key_idx(
                            old(self).namespaces@,
                            op_namespace(dml_operation),
                        )].0
                    } else {
                        &&& final(self).namespaces@.len() == old(self).namespaces@.len() + 1
                        &&& (forall|j: int|
                            0 <= j < old(self).namespaces@.len()
                                ==> (#[trigger] final(self).namespaces@[j]) == old(
                                self,
                            ).namespaces@[j])
                    }
                    &&& match dml_operation {
                        DmlOperation::Write(w) => {
                            &&& final(lifecycle_manager).total_bytes == write_totals(
                                old(lifecycle_manager).total_bytes as int,
                                w.tables@,
                            )
                            &&& pause == (w.tables@.len() > 0
                                && final(lifecycle_manager).total_bytes > old(
                                lifecycle_manager,
                            ).config.pause_ingest_size_bytes)
                            &&& forall|k: int|
                                0 <= k < w.tables@.len() ==> batch_min_time(
                                    #[trigger] w.tables@[k].1,
                                ) is Some && write_landed(
                                    final(self).namespaces@[key_idx(
                                        final(self).namespaces@,
                                        w.namespace@,
                                    )].1.tables@,
                                    w.tables@[k].0@,
                                    w.sequence_number.0,
                                    w.tables@[k].1,
                                )
                            &&& if has_key(old(self).namespaces@, w.namespace@) {
                                let nd0 = old(self).namespaces@[key_idx(
                                    old(self).namespaces@,
                                    w.namespace@,
                                )].1;
                                let nd1 = final(self).namespaces@[key_idx(
                                    final(self).namespaces@,
                                    w.namespace@,
                                )].1;
                                &&& (ns_bufs_end_by(nd0, w.sequence_number.0) ==> ns_bufs_end_by(
                                    nd1,
                                    w.sequence_number.0,
                                ))
                                &&& (forall|m: int|
                                    m >= 0 && #[trigger] ns_rows_bounded(nd0, m)
                                        ==> ns_rows_bounded(nd1, m + max_write_rows(w.tables@)))
                            } else {
                                let nd1 = final(self).namespaces@[key_idx(
                                    final(self).namespaces@,
                                    w.namespace@,
                                )].1;
                                &&& ns_bufs_end_by(nd1, w.sequence_number.0)
                                &&& ns_rows_bounded(nd1, max_write_rows(w.tables@))
                            }
                        },
                        DmlOperation::Delete(d) => pause == false,
                    }
                },
                Err(e) => {
                    &&& (e matches Error::NamespaceNotFound { namespace: ns2 } || e
                        is TimeColumnNotPresent || e is TableNotPresent || e matches Error::Catalog {
                        source,
                    })
                    &&& e matches Error::NamespaceNotFound { namespace } ==> {
                        &&& namespace@ == op_namespace(dml_operation)
                        &&& !has_key(old(self).namespaces@, namespace@)
                        &&& !crate::catalog::has_namespace(old(catalog).namespaces@, namespace@)
                        &&& *final(self) == *old(self)
                    }
                    &&& match dml_operation {
                        DmlOperation::Write(w) => {
                            &&& !(e is TableNotPresent)
                            &&& (e is TimeColumnNotPresent ==> exists|kk: int|
                                0 <= kk < w.tables@.len() && batch_min_time(
                                    #[trigger] w.tables@[kk].1,
                                ) is None)
                            &&& (e matches Error::Catalog { source } ==> (source is Unavailable
                                && old(catalog).faults@.contains(true)) || (source
                                is IdSpaceExhausted && old(catalog).next_id + 2 * w.tables@.len()
                                >= i64::MAX))
                        },
                        DmlOperation::Delete(d) => {
                            &&& !(e is TimeColumnNotPresent)
                            &&& (e is TableNotPresent ==> d.table_name is None)
                            &&& (e matches Error::Catalog { source } ==> (source is Unavailable
                                && old(catalog).faults@.contains(true)) || (source
                                is IdSpaceExhausted && old(catalog).next_id + 2 >= i64::MAX))
                        },
                    }
                },
            },
            // a namespace known neither in memory nor to the catalog cannot
            // take an operation, and with a clean catalog the refusal is
            // exactly the namespace error
            (!has_key(old(self).namespaces@, op_namespace(dml_operation))
                && !crate::catalog::has_namespace(
                old(catalog).namespaces@,
                op_namespace(dml_operation),
            )) ==> !(r is Ok),
            (!has_key(old(self).namespaces@, op_namespace(dml_operation))
                && !crate::catalog::has_namespace(
                old(catalog).namespaces@,
                op_namespace(dml_operation),
            ) && !old(catalog).faults@.contains(true)) ==> (r matches Err(
                Error::NamespaceNotFound { namespace },
            ) && namespace@ == op_namespace(dml_operation)),
            // success is owed on acceptable inputs
            op_acceptable_at(*old(self), *old(catalog), dml_operation) ==> r is Ok,
    {
        let ns_name = match &dml_operation {
            DmlOperation::Write(w) => w.namespace.clone(),
            DmlOperation::Delete(d) => d.namespace.clone(),
        };
        let i = match find_key(&self.namespaces, &ns_name) {
            Option::Some(i) => i,
            Option::None => {
                // the namespace must pre-exist in the catalog
                let ns = match catalog.namespaces_get_by_name(&ns_name) {
                    Ok(Option::Some(ns)) => ns,
                    Ok(Option::None) => {
                        return Err(Error::NamespaceNotFound { namespace: ns_name });
                    },
                    Err(source) => {
                        proof {
                            if old(catalog).faults@.len() > 0 && old(catalog).faults@.last()
                                == true {
                                assert(old(catalog).faults@.contains(true));
                            }
                        }
                        return Err(Error::Catalog { source });
                    },
                };
                proof {
                    let widx = choose|widx: int|
                        0 <= widx < old(catalog).namespaces@.len() && old(
                            catalog,
                        ).namespaces@[widx] == ns;
                    assert(old(catalog).namespaces@[widx].name@ == ns_name@);
                    assert(crate::catalog::has_namespace(old(catalog).namespaces@, ns_name@));
                }
                let ghost s0 = self.namespaces@;
                let nd = NamespaceData::new(ns.id);
                self.namespaces.push((ns_name, nd));
                proof {
                    let s1 = self.namespaces@;
                    assert(s1.take(s0.len() as int) =~= s0);
                    assert forall|j: int| 0 <= j < s1.len() implies (#[trigger] s1[j].1).wf() by {
                        if j < s0.len() {
                            assert(s1[j] == s0[j]);
                        }
                    }
                    assert(keys_distinct(s1)) by {
                        assert forall|p: int, q: int|
                            0 <= p < q < s1.len() implies (#[trigger] s1[p].0@) != (
                        #[trigger] s1[q].0@) by {
                            if q < s0.len() {
                                assert(s0[p].0@ != s0[q].0@);
                            } else {
                                assert(s1[p] == s0[p]);
                                if s1[p].0@ == s1[q].0@ {
                                    assert(has_key(s0, s1[q].0@));
                                }
                            }
                        }
                    }
                }
                self.namespaces.len() - 1
            },
        };
        let ghost pre = self.namespaces@;
        let ghost op_snapshot = dml_operation;
        let ghost cat_call = *catalog;
        let r = self.namespaces[i].1.buffer_operation(
            dml_operation,
            sequencer_id,
            catalog,
            lifecycle_manager,
        );
        proof {
            let s1 = self.namespaces@;
            assert forall|p: int, q: int|
                0 <= p < q < s1.len() implies (#[trigger] s1[p].0@) != (#[trigger] s1[q].0@) by {
                if p != i as int {
                    assert(s1[p] == pre[p]);
                }
                if q != i as int {
                    assert(s1[q] == pre[q]);
                }
                assert(pre[p].0@ != pre[q].0@);
            }
            assert forall|j: int| 0 <= j < s1.len() implies (#[trigger] s1[j].1).wf() by {
                if j != i as int {
                    assert(s1[j] == pre[j]);
                }
            }
            let ns = op_namespace(op_snapshot);
            assert(pre[i as int].0@ == ns);
            assert(s1[i as int].0 == pre[i as int].0);
            if r is Ok {
                assert(faults_prefix(old(catalog).faults@, cat_call.faults@)) by {
                    assert(cat_call.faults@ =~= old(catalog).faults@.take(
                        cat_call.faults@.len() as int,
                    ));
                }
                lemma_faults_prefix_trans(
                    old(catalog).faults@,
                    cat_call.faults@,
                    catalog.faults@,
                );
                lemma_key_idx(s1, i as int);
                if has_key(old(self).namespaces@, ns) {
                    lemma_key_idx(old(self).namespaces@, i as int);
                    assert forall|j: int|
                        0 <= j < old(self).namespaces@.len() && j != key_idx(
                            old(self).namespaces@,
                            ns,
                        ) implies (#[trigger] s1[j]) == old(self).namespaces@[j] by {
                        assert(s1[j] == pre[j]);
                    }
                } else {
                    assert forall|j: int|
                        0 <= j < old(self).namespaces@.len() implies (#[trigger] s1[j]) == old(
                        self,
                    ).namespaces@[j] by {
                        assert(s1[j] == pre[j]);
                        assert(pre[j] == old(self).namespaces@[j]);
                    }
                }
                match op_snapshot {
                    DmlOperation::Write(w) => {
                        assert(key_idx(s1, w.namespace@) == i as int);
                        if !has_key(old(self).namespaces@, ns) {
                            // the freshly inserted namespace starts empty, so
                            // the buffered-state bounds hold absolutely
                            assert(pre[i as int].1.tables@.len() == 0);
                            assert(ns_bufs_end_by(pre[i as int].1, w.sequence_number.0));
                            assert(ns_rows_bounded(pre[i as int].1, 0));
                        }
                        assert forall|k: int|
                            0 <= k < w.tables@.len() implies batch_min_time(
                            #[trigger] w.tables@[k].1,
                        ) is Some && write_landed(
                            s1[key_idx(s1, w.namespace@)].1.tables@,
                            w.tables@[k].0@,
                            w.sequence_number.0,
                            w.tables@[k].1,
                        ) by {
                            assert(write_landed(
                                s1[i as int].1.tables@,
                                w.tables@[k].0@,
                                w.sequence_number.0,
                                w.tables@[k].1,
                            ));
                        }
                    },
                    DmlOperation::Delete(d) => {},
                }
            }
        }
        r
    }
}


/// Whether some entry of `s` serves sequencer id `n`.
pub open spec fn has_seq(s: Seq<(SequencerId, SequencerData)>, n: i16) -> bool {
    exists|i: int| 0 <= i < s.len() && (#[trigger] s[i].0.0) == n
}

/// The index of the entry of `s` serving sequencer id `n`.
pub open spec fn seq_idx(s: Seq<(SequencerId, SequencerData)>, n: i16) -> int {
    choose|i: int| 0 <= i < s.len() && (#[trigger] s[i].0.0) == n
}

/// The full buffering tree: every configured sequencer's data.  The set
/// of sequencers is fixed at startup; their contents grow as operations
/// arrive.
#[derive(Debug, PartialEq)]
pub struct IngesterData {
    pub sequencers: Vec<(SequencerId, SequencerData)>,
}

impl IngesterData {
    /// Sequencer ids are distinct and every sequencer is well-formed.
    pub open spec fn wf(&self) -> bool {
        &&& forall|i: int, j: int|
            0 <= i < j < self.sequencers@.len() ==> (#[trigger] self.sequencers@[i].0.0) != (
            #[trigger] self.sequencers@[j].0.0)
        &&& forall|i: int|
            0 <= i < self.sequencers@.len() ==> (#[trigger] self.sequencers@[i].1).wf()
    }

    /// A tree serving the given sequencers, each starting empty.
    #[verifier::loop_isolation(false)]
    pub fn new(sequencer_ids: Vec<SequencerId>) -> (r: Self)
        ensures
            r.sequencers@.len() == sequencer_ids@.len(),
            forall|i: int|
                0 <= i < sequencer_ids@.len() ==> (#[trigger] r.sequencers@[i].0)
                    == sequencer_ids@[i] && r.sequencers@[i].1.namespaces@.len() == 0,
    {
        let mut sequencers: Vec<(SequencerId, SequencerData)> = Vec::new();
        let mut i: usize = 0;
        while i < sequencer_ids.len()
            invariant
                i <= sequencer_ids@.len(),
                sequencers@.len() == i,
                forall|j: int|
                    0 <= j < i ==> (#[trigger] sequencers@[j].0) == sequencer_ids@[j]
                        && sequencers@[j].1.namespaces@.len() == 0,
            decreases sequencer_ids@.len() - i,
        {
            sequencers.push((sequencer_ids[i], SequencerData::default()));
            i += 1;
        }
        IngesterData { sequencers }
    }

    /// Stores the write or delete in the in-memory buffer, with deletes
    /// recorded in the catalog first and new tables and partitions created
    /// there before being buffered.  Reports whether the admission tracker
    /// asks ingestion to pause.  Fails when the sequencer is unknown:
    /// sequencers are fixed at startup.
    #[verifier::loop_isolation(false)]
    pub fn buffer_operation(
        &mut self,
        sequencer_id: SequencerId,
        dml_operation: DmlOperation,
        lifecycle_manager: &mut LifecycleManager,
        catalog: &mut Catalog,
    ) -> (r: Result<bool, Error>)
        requires
            old(self).wf(),
            // only the targeted sequencer's namespaces must be able to take
            // the write: ordering is per sequencer
            forall|s: int, i: int|
                0 <= s < old(self).sequencers@.len() && (#[trigger] old(
                    self,
                ).sequencers@[s].0.0) == sequencer_id.0 && 0 <= i < old(
                    self,
                ).sequencers@[s].1.namespaces@.len() ==> (dml_operation matches
                DmlOperation::Write(w) ==> write_ok(
                    (#[trigger] old(self).sequencers@[s].1.namespaces@[i].1),
                    w,
                )),
            dml_operation matches DmlOperation::Write(w) ==> keys_distinct(w.tables@) && (forall|
                k: int,
            |
                0 <= k < w.tables@.len() ==> (#[trigger] w.tables@[k].1).wf()),
        ensures
            final(self).wf(),
            final(lifecycle_manager).config == old(lifecycle_manager).config,
            // an unknown sequencer yields exactly the configuration error
            !has_seq(old(self).sequencers@, sequencer_id.0) <==> (r matches Err(
                Error::SequencerNotFound { sequencer_id: sid },
            ) && sid == sequencer_id),
            match r {
                Ok(pause) => {
                    &&& has_seq(old(self).sequencers@, sequencer_id.0)
                    &&& faults_prefix(old(catalog).faults@, final(catalog).faults@)
                    &&& final(catalog).next_id <= old(catalog).next_id + 2 * (match dml_operation {
                        DmlOperation::Write(w) => w.tables@.len() as int,
                        DmlOperation::Delete(d) => 1int,
                    })
                    &&& (forall|j: int|
                        0 <= j < old(self).sequencers@.len() && j != seq_idx(
                            old(self).sequencers@,
                            sequencer_id.0,
                        ) ==> (#[trigger] final(self).sequencers@[j]) == old(self).sequencers@[j])
                    &&& final(self).sequencers@.len() == old(self).sequencers@.len()
                    &&& match dml_operation {
                        DmlOperation::Write(w) => ({
                            let sd = final(self).sequencers@[seq_idx(
                                final(self).sequencers@,
                                sequencer_id.0,
                            )].1;
                            &&& final(lifecycle_manager).total_bytes == write_totals(
                                old(lifecycle_manager).total_bytes as int,
                                w.tables@,
                            )
                            &&& pause == (w.tables@.len() > 0
                                && final(lifecycle_manager).total_bytes > old(
                                lifecycle_manager,
                            ).config.pause_ingest_size_bytes)
                            &&& has_key(sd.namespaces@, w.namespace@)
                            &&& (forall|k: int|
                                0 <= k < w.tables@.len() ==> batch_min_time(
                                    #[trigger] w.tables@[k].1,
                                ) is Some && write_landed(
                                    sd.namespaces@[key_idx(sd.namespaces@, w.namespace@)].1.tables@,
                                    w.tables@[k].0@,
                                    w.sequence_number.0,
                                    w.tables@[k].1,
                                ))
                            &&& ({
                                let sd0 = old(self).sequencers@[seq_idx(
                                    old(self).sequencers@,
                                    sequencer_id.0,
                                )].1;
                                let nd1 = sd.namespaces@[key_idx(sd.namespaces@, w.namespace@)].1;
                                if has_key(sd0.namespaces@, w.namespace@) {
                                    let nd0 = sd0.namespaces@[key_idx(
                                        sd0.namespaces@,
                                        w.namespace@,
                                    )].1;
                                    &&& (ns_bufs_end_by(nd0, w.sequence_number.0)
                                        ==> ns_bufs_end_by(nd1, w.sequence_number.0))
                                    &&& (forall|m: int|
                                        m >= 0 && #[trigger] ns_rows_bounded(nd0, m)
                                            ==> ns_rows_bounded(
                                            nd1,
                                            m + max_write_rows(w.tables@),
                                        ))
                                } else {
                                    &&& ns_bufs_end_by(nd1, w.sequence_number.0)
                                    &&& ns_rows_bounded(nd1, max_write_rows(w.tables@))
                                }
                            })
                        }),
                        DmlOperation::Delete(d) => pause == false,
                    }
                },
                Err(e) => {
                    &&& (e matches Error::SequencerNotFound { sequencer_id: sid2 } || e matches
                        Error::NamespaceNotFound { namespace } || e is TimeColumnNotPresent || e
                        is TableNotPresent || e matches Error::Catalog { source })
                    &&& (e matches Error::SequencerNotFound { sequencer_id: sid } ==> sid
                        == sequencer_id && !has_seq(old(self).sequencers@, sequencer_id.0)
                        && *final(self) == *old(self) && *final(catalog) == *old(catalog)
                        && *final(lifecycle_manager) == *old(lifecycle_manager))
                    &&& (e matches Error::NamespaceNotFound { namespace } ==> {
                        &&& namespace@ == op_namespace(dml_operation)
                        &&& !crate::catalog::has_namespace(old(catalog).namespaces@, namespace@)
                        &&& final(self).sequencers@ == old(self).sequencers@
                    })
                    &&& match dml_operation {
                        DmlOperation::Write(w) => {
                            &&& !(e is TableNotPresent)
                            &&& (e is TimeColumnNotPresent ==> exists|kk: int|
                                0 <= kk < w.tables@.len() && batch_min_time(
                                    #[trigger] w.tables@[kk].1,
                                ) is None)
                            &&& (e matches Error::Catalog { source } ==> (source is Unavailable
                                && old(catalog).faults@.contains(true)) || (source
                                is IdSpaceExhausted && old(catalog).next_id + 2 * w.tables@.len()
                                >= i64::MAX))
                        },
                        DmlOperation::Delete(d) => {
                            &&& !(e is TimeColumnNotPresent)
                            &&& (e is TableNotPresent ==> d.table_name is None)
                            &&& (e matches Error::Catalog { source } ==> (source is Unavailable
                                && old(catalog).faults@.contains(true)) || (source
                                is IdSpaceExhausted && old(catalog).next_id + 2 >= i64::MAX))
                        },
                    }
                },
            },
            // success is owed whenever the sequencer is configured and the
            // operation is acceptable there
            (has_seq(old(self).sequencers@, sequencer_id.0) && op_acceptable_at(
                old(self).sequencers@[seq_idx(old(self).sequencers@, sequencer_id.0)].1,
                *old(catalog),
                dml_operation,
            )) ==> r is Ok,
    {
        let n = self.sequencers.len();
        let mut i: usize = 0;
        while i < n
            invariant
                i <= n,
                *self == *old(self),
                *catalog == *old(catalog),
                *lifecycle_manager == *old(lifecycle_manager),
                n == self.sequencers@.len(),
                forall|p: int| 0 <= p < i ==> (#[trigger] self.sequencers@[p].0.0) != sequencer_id.0,
        decreases n - i,
        {
            if self.sequencers[i].0.0 == sequencer_id.0 {
                proof {
                    assert(has_seq(self.sequencers@, sequencer_id.0));
                }
                let ghost pre = self.sequencers@;
                let ghost op_snapshot = dml_operation;
                let r = self.sequencers[i].1.buffer_operation(
                    dml_operation,
                    sequencer_id,
                    catalog,
                    lifecycle_manager,
                );
                proof {
                    let s1 = self.sequencers@;
                    assert forall|p: int, q: int|
                        0 <= p < q < s1.len() implies (#[trigger] s1[p].0.0) != (
                    #[trigger] s1[q].0.0) by {
                        if p != i as int {
                            assert(s1[p] == pre[p]);
                        }
                        if q != i as int {
                            assert(s1[q] == pre[q]);
                        }
                        assert(pre[p].0.0 != pre[q].0.0);
                    }
                    assert forall|j: int| 0 <= j < s1.len() implies (#[trigger] s1[j].1).wf() by {
                        if j != i as int {
                            assert(s1[j] == pre[j]);
                        }
                    }
                    // the entry found by the scan is the one the lookup spec
                    // designates, before and after the delegation
                    assert(s1[i as int].0 == pre[i as int].0);
                    assert(seq_idx(old(self).sequencers@, sequencer_id.0) == i as int) by {
                        assert(old(self).sequencers@[i as int].0.0 == sequencer_id.0);
                        let j = seq_idx(old(self).sequencers@, sequencer_id.0);
                        if j < i as int {
                            assert(old(self).sequencers@[j].0.0 != old(
                                self,
                            ).sequencers@[i as int].0.0);
                        } else if j > i as int {
                            assert(old(self).sequencers@[i as int].0.0 != old(
                                self,
                            ).sequencers@[j].0.0);
                        }
                    }
                    assert(seq_idx(s1, sequencer_id.0) == i as int) by {
                        assert(s1[i as int].0.0 == sequencer_id.0);
                        let j = seq_idx(s1, sequencer_id.0);
                        if j < i as int {
                            assert(s1[j].0.0 != s1[i as int].0.0);
                        } else if j > i as int {
                            assert(s1[i as int].0.0 != s1[j].0.0);
                        }
                    }
                    if r is Ok {
                        match op_snapshot {
                            DmlOperation::Write(w) => {
                                assert forall|k: int|
                                    0 <= k < w.tables@.len() implies batch_min_time(
                                    #[trigger] w.tables@[k].1,
                                ) is Some && write_landed(
                                    s1[i as int].1.namespaces@[key_idx(
                                        s1[i as int].1.namespaces@,
                                        w.namespace@,
                                    )].1.tables@,
                                    w.tables@[k].0@,
                                    w.sequence_number.0,
                                    w.tables@[k].1,
                                ) by {}
                            },
                            DmlOperation::Delete(d) => {},
                        }
                    }
                }
                return r;
            }
            i += 1;
        }
        proof {
            if has_seq(self.sequencers@, sequencer_id.0) {
                let w = choose|w: int|
                    0 <= w < self.sequencers@.len() && (#[trigger] self.sequencers@[w].0.0)
                        == sequencer_id.0;
                assert(self.sequencers@[w].0.0 != sequencer_id.0);
            }
        }
        Err(Error::SequencerNotFound { sequencer_id })
    }
}

} // verus!