//! The three-stage data buffer of one time-partition.
//!
//! Ingested record batches land in the mutable stage, are folded into
//! immutable snapshots, and move as a single persisting batch through one
//! compaction-and-persist cycle.  New writes only ever touch the mutable
//! stage; at most one persisting batch exists at a time.

use crate::batch::Batch;
use crate::batch::BatchError;
use crate::batch::batch_eq;
use crate::batch::batch_like;
use crate::batch::BatchV;
use crate::batch::batch_compat;
use crate::batch::batch_extend;
use crate::data::Error;
use crate::delete::TombV;
use crate::delete::Tombstone;
use crate::delete::tombs_v;
use crate::delete::tomb_v;
use crate::delete::tombstone_eq;
use crate::outside::new_object_store_id;
use crate::scan::Selection;
use crate::scan::cols_like;
use crate::scan::duplicate_batch;
use crate::scan::project_cols;
use crate::scan::names_v;
use crate::types::PartitionId;
use crate::types::SequenceNumber;
use crate::types::SequencerId;
use crate::types::TableId;
use vstd::prelude::*;

verus! {

/// One ingested record batch, still mutable, tagged with its position in
/// the sequencer's stream.
#[derive(Debug, Clone, PartialEq)]
pub struct BufferBatch {
    pub sequencer_number: SequenceNumber,
    pub data: Batch,
}

/// The immutable, schema-unified union of a contiguous run of buffer
/// batches, tagged with the inclusive sequence-number range it covers.
#[derive(Debug, Clone, PartialEq)]
pub struct SnapshotBatch {
    pub min_sequencer_number: SequenceNumber,
    pub max_sequencer_number: SequenceNumber,
    pub data: Batch,
}

/// The read-side view of a partition's frozen data: its snapshots, the
/// tombstones to apply to them, and the table they belong to.
#[derive(Debug, Clone, PartialEq)]
pub struct QueryableBatch {
    pub data: Vec<SnapshotBatch>,
    pub deletes: Vec<Tombstone>,
    pub table_name: String,
}

/// Everything frozen for one compaction-and-persist cycle, tagged with a
/// freshly generated object-store identifier.
#[derive(Debug, Clone, PartialEq)]
pub struct PersistingBatch {
    pub sequencer_id: SequencerId,
    pub table_id: TableId,
    pub partition_id: PartitionId,
    pub object_store_id: u128,
    pub data: QueryableBatch,
}

/// Model of a snapshot batch.
pub struct SnapV {
    pub min_seq: i64,
    pub max_seq: i64,
    pub data: BatchV,
}

pub open spec fn snap_v(s: SnapshotBatch) -> SnapV {
    SnapV { min_seq: s.min_sequencer_number.0, max_seq: s.max_sequencer_number.0, data: s.data@ }
}

pub open spec fn snaps_v(s: Seq<SnapshotBatch>) -> Seq<SnapV> {
    s.map(|i: int, b: SnapshotBatch| snap_v(b))
}

/// Whether two snapshot batches hold the same range and the same data.
pub open spec fn snapshot_like(a: SnapshotBatch, b: SnapshotBatch) -> bool {
    &&& a.min_sequencer_number.0 == b.min_sequencer_number.0
    &&& a.max_sequencer_number.0 == b.max_sequencer_number.0
    &&& batch_like(a.data, b.data)
}

/// Whether two persisting batches are the same batch in full: the same
/// identifiers, table name, snapshot contents and tombstones.
pub open spec fn persisting_like(a: PersistingBatch, b: PersistingBatch) -> bool {
    &&& a.sequencer_id.0 == b.sequencer_id.0
    &&& a.table_id.0 == b.table_id.0
    &&& a.partition_id.0 == b.partition_id.0
    &&& a.object_store_id == b.object_store_id
    &&& a.data.table_name@ == b.data.table_name@
    &&& a.data.data@.len() == b.data.data@.len()
    &&& forall|i: int|
        0 <= i < a.data.data@.len() ==> snapshot_like(#[trigger] a.data.data@[i], b.data.data@[i])
    &&& tombs_v(a.data.deletes@) == tombs_v(b.data.deletes@)
}

/// Compares two persisting batches in full, cell by cell.
#[verifier::loop_isolation(false)]
pub fn persisting_eq(a: &PersistingBatch, b: &PersistingBatch) -> (r: bool)
    ensures
        r == persisting_like(*a, *b),
{
    if !(a.sequencer_id.0 == b.sequencer_id.0) || !(a.table_id.0 == b.table_id.0)
        || !(a.partition_id.0 == b.partition_id.0) || !(a.object_store_id == b.object_store_id)
        || !(a.data.table_name == b.data.table_name) || a.data.data.len() != b.data.data.len()
        || a.data.deletes.len() != b.data.deletes.len() {
        proof {
            if persisting_like(*a, *b) {
                assert(tombs_v(a.data.deletes@).len() == tombs_v(b.data.deletes@).len());
            }
        }
        return false;
    }
    let mut i: usize = 0;
    while i < a.data.data.len()
        invariant
            i <= a.data.data@.len(),
            a.data.data@.len() == b.data.data@.len(),
            forall|p: int|
                0 <= p < i ==> snapshot_like(#[trigger] a.data.data@[p], b.data.data@[p]),
        decreases a.data.data@.len() - i,
    {
        let sa = &a.data.data[i];
        let sb = &b.data.data[i];
        if !(sa.min_sequencer_number.0 == sb.min_sequencer_number.0)
            || !(sa.max_sequencer_number.0 == sb.max_sequencer_number.0) || !batch_eq(
            &sa.data,
            &sb.data,
        ) {
            return false;
        }
        i += 1;
    }
    let mut k: usize = 0;
    while k < a.data.deletes.len()
        invariant
            k <= a.data.deletes@.len(),
            a.data.deletes@.len() == b.data.deletes@.len(),
            forall|p: int|
                0 <= p < k ==> tomb_v(#[trigger] a.data.deletes@[p]) == tomb_v(b.data.deletes@[p]),
        decreases a.data.deletes@.len() - k,
    {
        if !tombstone_eq(&a.data.deletes[k], &b.data.deletes[k]) {
            proof {
                if persisting_like(*a, *b) {
                    assert(tombs_v(a.data.deletes@)[k as int] == tombs_v(b.data.deletes@)[k as int]);
                }
            }
            return false;
        }
        k += 1;
    }
    proof {
        assert(tombs_v(a.data.deletes@) =~= tombs_v(b.data.deletes@));
    }
    true
}

impl SnapshotBatch {
    /// Projects the snapshot to a column subset: the requested columns that
    /// exist, with values unchanged, or `None` when none of them does.
    pub fn scan(&self, selection: &Selection) -> (r: Option<Batch>)
        requires
            self.data.wf(),
        ensures
            match selection {
                Selection::All => match r {
                    Option::Some(b) => b.row_count == self.data.row_count && cols_like(
                        b.columns@,
                        self.data.columns@,
                    ),
                    Option::None => false,
                },
                Selection::Cols(sel) => match r {
                    Option::Some(b) => {
                        &&& b.row_count == self.data.row_count
                        &&& cols_like(
                            b.columns@,
                            project_cols(self.data.columns@, names_v(sel@)),
                        )
                        &&& b.columns@.len() > 0
                    },
                    Option::None => project_cols(self.data.columns@, names_v(sel@)).len() == 0,
                },
            },
    {
        match selection {
            Selection::All => Option::Some(duplicate_batch(&self.data)),
            Selection::Cols(sel) => self.data.project(sel),
        }
    }
}

/// The model of an empty batch.
pub open spec fn empty_batch_v() -> BatchV {
    BatchV { rows: 0, cols: Map::empty() }
}

/// The schema-merged union of a run of buffer batches, folded in order.
pub open spec fn fold_batches(s: Seq<BufferBatch>) -> BatchV
    decreases s.len(),
{
    if s.len() == 0 {
        empty_batch_v()
    } else {
        batch_extend(fold_batches(s.drop_last()), s.last().data@)
    }
}

/// Whether every step of the fold meets a compatible schema.
pub open spec fn fold_compat(s: Seq<BufferBatch>) -> bool
    decreases s.len(),
{
    if s.len() == 0 {
        true
    } else {
        fold_compat(s.drop_last()) && batch_compat(fold_batches(s.drop_last()), s.last().data@)
    }
}

/// Whether every step of the fold keeps the row count within `usize`.
pub open spec fn fold_rows_ok(s: Seq<BufferBatch>) -> bool
    decreases s.len(),
{
    if s.len() == 0 {
        true
    } else {
        fold_rows_ok(s.drop_last()) && fold_batches(s.drop_last()).rows + s.last().data@.rows
            <= usize::MAX
    }
}

/// Every buffer batch holds a well-formed record batch.
pub open spec fn bufs_wf(s: Seq<BufferBatch>) -> bool {
    forall|i: int| 0 <= i < s.len() ==> (#[trigger] s[i].data).wf()
}

/// Every snapshot's range is well-ordered and the ranges across the list
/// are pairwise non-overlapping and increasing.
pub open spec fn snaps_ranges_ordered(s: Seq<SnapshotBatch>) -> bool {
    &&& forall|i: int|
        0 <= i < s.len() ==> (#[trigger] s[i].min_sequencer_number.0) <= s[i].max_sequencer_number.0
    &&& forall|i: int, j: int|
        0 <= i < j < s.len() ==> (#[trigger] s[i].max_sequencer_number.0) < (
        #[trigger] s[j].min_sequencer_number.0)
}

/// Every snapshot holds a well-formed record batch.
pub open spec fn snapshots_wf(s: Seq<SnapshotBatch>) -> bool {
    forall|i: int| 0 <= i < s.len() ==> (#[trigger] s[i].data).wf()
}

/// Sequence numbers do not decrease along the buffer.
pub open spec fn bufs_ordered(s: Seq<BufferBatch>) -> bool {
    forall|i: int, j: int|
        0 <= i <= j < s.len() ==> (#[trigger] s[i].sequencer_number.0) <= (
        #[trigger] s[j].sequencer_number.0)
}

/// Fold facts restrict to prefixes.
pub proof fn lemma_fold_take(s: Seq<BufferBatch>, k: int)
    requires
        0 <= k <= s.len(),
    ensures
        fold_compat(s) ==> fold_compat(s.take(k)),
        fold_rows_ok(s) ==> fold_rows_ok(s.take(k)),
    decreases s.len(),
{
    if k == s.len() {
        assert(s.take(k) =~= s);
    } else if s.len() > 0 {
        assert(s.drop_last().take(k) =~= s.take(k));
        lemma_fold_take(s.drop_last(), k);
    }
}

/// The three-stage holding area of one time-partition.
#[derive(Debug, PartialEq)]
pub struct DataBuffer {
    /// Mutable stage: incoming writes land here.
    pub buffer: Vec<BufferBatch>,
    /// Tombstones whose time range may overlap this partition, already
    /// recorded in the catalog; moved into the persisting batch when a
    /// persist cycle starts.  Compaction applies their time ranges only;
    /// the column comparisons are carried for the query side.
    pub deletes: Vec<Tombstone>,
    /// Immutable stage: folded snapshots, visible to queries.
    pub snapshots: Vec<SnapshotBatch>,
    /// At most one batch frozen for an in-flight persist cycle.
    pub persisting: Option<PersistingBatch>,
}

impl Default for DataBuffer {
    fn default() -> (r: Self)
        ensures
            r.buffer@.len() == 0,
            r.deletes@.len() == 0,
            r.snapshots@.len() == 0,
            r.persisting is None,
    {
        DataBuffer { buffer: Vec::new(), deletes: Vec::new(), snapshots: Vec::new(), persisting: Option::None }
    }
}

impl DataBuffer {
    /// Inputs under which the mutable stage can be folded: well-formed
    /// batches, in sequence order, with a resulting row count that fits.
    pub open spec fn buffer_foldable(&self) -> bool {
        &&& bufs_wf(self.buffer@)
        &&& bufs_ordered(self.buffer@)
        &&& fold_rows_ok(self.buffer@)
    }

    /// Folds all buffer batches, if any, into one new snapshot batch whose
    /// sequence range spans the first to the last folded batch and whose
    /// data is the schema-merged union, appended to the snapshot stage; the
    /// mutable stage is left empty.  On a schema conflict nothing changes.
    #[verifier::loop_isolation(false)]
    pub fn snapshot(&mut self) -> (r: Result<(), BatchError>)
        requires
            old(self).buffer_foldable(),
        ensures
            final(self).deletes == old(self).deletes,
            final(self).persisting == old(self).persisting,
            match r {
                Ok(_) => {
                    &&& fold_compat(old(self).buffer@)
                    &&& final(self).buffer@.len() == 0
                    &&& if old(self).buffer@.len() == 0 {
                        final(self).snapshots == old(self).snapshots
                    } else {
                        &&& final(self).snapshots@.len() == old(self).snapshots@.len() + 1
                        &&& final(self).snapshots@.drop_last() == old(self).snapshots@
                        &&& snap_v(final(self).snapshots@.last()) == SnapV {
                            min_seq: old(self).buffer@[0].sequencer_number.0,
                            max_seq: old(self).buffer@.last().sequencer_number.0,
                            data: fold_batches(old(self).buffer@),
                        }
                        &&& final(self).snapshots@.last().data.wf()
                    }
                },
                Err(e) => {
                    &&& !fold_compat(old(self).buffer@)
                    &&& e matches BatchError::TypeMismatch { column }
                    &&& *final(self) == *old(self)
                },
            },
            // the cross-snapshot invariant: ranges stay non-overlapping and
            // increasing whenever the buffered run starts past them
            r is Ok && snaps_ranges_ordered(old(self).snapshots@) && (old(self).buffer@.len() == 0
                || old(self).snapshots@.len() == 0 || old(self).snapshots@.last().max_sequencer_number.0
                < old(self).buffer@[0].sequencer_number.0) ==> snaps_ranges_ordered(
                final(self).snapshots@,
            ),
    {
        let ghost snaps0 = old(self).snapshots@;
        let n = self.buffer.len();
        if n == 0 {
            return Ok(());
        }
        let min_seq = self.buffer[0].sequencer_number;
        let max_seq = self.buffer[n - 1].sequencer_number;
        let mut acc = Batch::new();
        let mut i: usize = 0;
        while i < n
            invariant
                i <= n,
                n == self.buffer@.len(),
                *self == *old(self),
                acc.wf(),
                acc@ == fold_batches(self.buffer@.take(i as int)),
                fold_compat(self.buffer@.take(i as int)),
            decreases n - i,
        {
            proof {
                lemma_fold_take(self.buffer@, i as int + 1);
                assert(self.buffer@.take(i as int + 1).drop_last() =~= self.buffer@.take(i as int));
                assert(self.buffer@.take(i as int + 1).last() == self.buffer@[i as int]);
                assert(fold_batches(self.buffer@.take(i as int)).rows == acc@.rows);
            }
            match acc.extend_from(&self.buffer[i].data) {
                Ok(_) => {},
                Err(e) => {
                    proof {
                        if fold_compat(self.buffer@) {
                            lemma_fold_take(self.buffer@, i as int + 1);
                        }
                    }
                    return Err(e);
                },
            }
            i += 1;
        }
        proof {
            assert(self.buffer@.take(n as int) =~= self.buffer@);
        }
        let snap = SnapshotBatch {
            min_sequencer_number: min_seq,
            max_sequencer_number: max_seq,
            data: acc,
        };
        self.snapshots.push(snap);
        self.buffer.clear();
        proof {
            let s1 = self.snapshots@;
            if snaps_ranges_ordered(snaps0) && (snaps0.len() == 0 || snaps0.last().max_sequencer_number.0
                < min_seq.0) {
                assert forall|i: int|
                    0 <= i < s1.len() implies (#[trigger] s1[i].min_sequencer_number.0)
                    <= s1[i].max_sequencer_number.0 by {
                    if i < s1.len() - 1 {
                        assert(s1[i] == snaps0[i]);
                    }
                }
                assert forall|i: int, j: int|
                    0 <= i < j < s1.len() implies (#[trigger] s1[i].max_sequencer_number.0) < (
                #[trigger] s1[j].min_sequencer_number.0) by {
                    if j < s1.len() - 1 {
                        assert(s1[i] == snaps0[i]);
                        assert(s1[j] == snaps0[j]);
                    } else {
                        assert(s1[i] == snaps0[i]);
                        if i < snaps0.len() - 1 {
                            assert(snaps0[i].max_sequencer_number.0 < snaps0[snaps0.len()
                                - 1].min_sequencer_number.0);
                            assert(snaps0[snaps0.len() - 1].min_sequencer_number.0 <= snaps0[
                            snaps0.len() - 1].max_sequencer_number.0);
                        }
                    }
                }
            }
        }
        Ok(())
    }

    /// Whether no data is held in any of the three stages.  Pending
    /// tombstones alone do not keep a partition alive.
    pub fn is_empty(&self) -> (r: bool)
        ensures
            r == (self.snapshots@.len() == 0 && self.buffer@.len() == 0 && self.persisting
                is None),
    {
        self.snapshots.len() == 0 && self.buffer.len() == 0 && self.persisting.is_none()
    }

    /// Folds the mutable stage and freezes the whole snapshot and delete
    /// lists into one new persisting batch.  Rejected, with the buffer
    /// unchanged, while a persisting batch already exists: only one persist
    /// cycle per partition may be in flight.
    pub fn snapshot_to_persisting(
        &mut self,
        sequencer_id: SequencerId,
        table_id: TableId,
        partition_id: PartitionId,
        table_name: &String,
    ) -> (r: Result<(), Error>)
        requires
            old(self).buffer_foldable(),
            snapshots_wf(old(self).snapshots@),
        ensures
            match r {
                Ok(_) => {
                    &&& snapshots_wf(final(self).persisting.unwrap().data.data@)
                    &&& old(self).persisting is None
                    &&& fold_compat(old(self).buffer@)
                    &&& final(self).buffer@.len() == 0
                    &&& final(self).snapshots@.len() == 0
                    &&& final(self).deletes@.len() == 0
                    &&& final(self).persisting is Some
                    &&& {
                        let p = final(self).persisting.unwrap();
                        &&& p.sequencer_id == sequencer_id
                        &&& p.table_id == table_id
                        &&& p.partition_id == partition_id
                        &&& p.data.table_name@ == table_name@
                        &&& tombs_v(p.data.deletes@) == tombs_v(old(self).deletes@)
                        &&& snaps_v(p.data.data@) == if old(self).buffer@.len() == 0 {
                            snaps_v(old(self).snapshots@)
                        } else {
                            snaps_v(old(self).snapshots@).push(
                                SnapV {
                                    min_seq: old(self).buffer@[0].sequencer_number.0,
                                    max_seq: old(self).buffer@.last().sequencer_number.0,
                                    data: fold_batches(old(self).buffer@),
                                },
                            )
                        }
                    }
                },
                Err(e) => {
                    &&& *final(self) == *old(self)
                    &&& (e is PersistingNotEmpty <==> old(self).persisting is Some)
                    &&& e is PersistingNotEmpty || (e matches Error::Snapshot { source }
                        && source matches BatchError::TypeMismatch { column } && !fold_compat(
                        old(self).buffer@,
                    ))
                },
            },
    {
        if self.persisting.is_some() {
            return Err(Error::PersistingNotEmpty);
        }
        let ghost pre = *self;
        match self.snapshot() {
            Err(e) => {
                return Err(Error::Snapshot { source: e });
            },
            Ok(_) => {},
        }
        let mut data: Vec<SnapshotBatch> = Vec::new();
        core::mem::swap(&mut data, &mut self.snapshots);
        let mut deletes: Vec<Tombstone> = Vec::new();
        core::mem::swap(&mut deletes, &mut self.deletes);
        proof {
            if pre.buffer@.len() > 0 {
                assert(snaps_v(data@) =~= snaps_v(pre.snapshots@).push(snap_v(data@.last())));
            } else {
                assert(snaps_v(data@) =~= snaps_v(pre.snapshots@));
            }
            assert(snapshots_wf(data@)) by {
                assert forall|i: int| 0 <= i < data@.len() implies (#[trigger] data@[i].data).wf()
                    by {
                    if i < data@.len() - 1 || pre.buffer@.len() == 0 {
                        assert(data@[i] == pre.snapshots@[i]);
                    }
                }
            }
        }
        let queryable_batch = QueryableBatch {
            data,
            deletes,
            table_name: table_name.clone(),
        };
        let persisting_batch = PersistingBatch {
            sequencer_id,
            table_id,
            partition_id,
            object_store_id: new_object_store_id(),
            data: queryable_batch,
        };
        self.persisting = Option::Some(persisting_batch);
        Ok(())
    }

    /// Installs a persisting batch, or reports that one is already there.
    pub fn add_persisting_batch(&mut self, batch: PersistingBatch) -> (r: Result<(), Error>)
        ensures
            match r {
                Ok(_) => {
                    &&& old(self).persisting is None
                    &&& *final(self) == DataBuffer { persisting: Option::Some(batch), ..*old(self) }
                },
                Err(e) => {
                    &&& old(self).persisting is Some
                    &&& e is PersistingNotEmpty
                    &&& *final(self) == *old(self)
                },
            },
    {
        if self.persisting.is_some() {
            Err(Error::PersistingNotEmpty)
        } else {
            self.persisting = Option::Some(batch);
            Ok(())
        }
    }

    /// Clears the persisting stage, provided the given batch is, in
    /// full, the one in flight: identifiers, snapshot contents and
    /// tombstones alike.  Reports whether none, or another, was there.
    pub fn remove_persisting_batch(&mut self, batch: &PersistingBatch) -> (r: Result<(), Error>)
        ensures
            match r {
                Ok(_) => {
                    &&& old(self).persisting is Some
                    &&& persisting_like(old(self).persisting.unwrap(), *batch)
                    &&& *final(self) == DataBuffer { persisting: Option::None, ..*old(self) }
                },
                Err(e) => {
                    &&& *final(self) == *old(self)
                    &&& (e is PersistingEmpty <==> old(self).persisting is None)
                    &&& (e is PersistingNotMatch <==> (old(self).persisting is Some
                        && !persisting_like(old(self).persisting.unwrap(), *batch)))
                    &&& (e is PersistingEmpty || e is PersistingNotMatch)
                },
            },
    {
        match &self.persisting {
            Option::Some(p) => {
                if persisting_eq(p, batch) {
                    self.persisting = Option::None;
                    Ok(())
                } else {
                    Err(Error::PersistingNotMatch)
                }
            },
            Option::None => Err(Error::PersistingEmpty),
        }
    }
}

} // verus!
