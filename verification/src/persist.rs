//! The compaction-and-persist path.
//!
//! A persist cycle freezes one partition's buffered data, merges its
//! snapshots by schema union and drops the rows its tombstones' time
//! ranges cover, writes the result durably to the object store, commits
//! the file record and applied tombstones to the catalog in one
//! transaction, and releases the partition's memory.  Sorting,
//! duplicate removal and predicate evaluation stay with the execution
//! engine, an outside collaborator; this model neither sorts nor
//! deduplicates.  Transient catalog and object-store failures are
//! retried until success; inconsistencies between the tree and the
//! catalog are reported as errors and never retried.

use crate::batch::Batch;
use crate::batch::BatchError;
use crate::batch::BatchV;
use crate::batch::Cell;
use crate::batch::ColV;
use crate::batch::Column;
use crate::batch::batch_extend;
use crate::batch::clone_cell;
use crate::batch::col_idx;
use crate::batch::col_v;
use crate::batch::find_col;
use crate::batch::has_col;
use crate::batch::lemma_col_idx;
use crate::buffer::QueryableBatch;
use crate::buffer::SnapshotBatch;
use crate::buffer::snapshots_wf;
use crate::catalog::Catalog;
use crate::catalog::CatalogTransaction;
use crate::catalog::ParquetFileParams;
use crate::catalog::PartitionInfo;
use crate::catalog::same_core;
use crate::buffer::DataBuffer;
use crate::buffer::SnapV;
use crate::buffer::fold_batches;
use crate::buffer::fold_compat;
use crate::buffer::snap_v;
use crate::buffer::snaps_v;
use crate::catalog::Partition;
use crate::catalog::has_namespace_id;
use crate::catalog::has_partition_id;
use crate::catalog::has_table_id;
use crate::data::Error;
use crate::data::IngesterData;
use crate::data::PartitionData;
use crate::data::TableData;
use crate::data::has_key;
use crate::data::has_seq;
use crate::data::key_idx;
use crate::data::find_key;
use crate::data::lemma_key_idx;
use crate::data::mark_persisted_effect;
use crate::data::seq_idx;
use crate::delete::TombV;
use crate::delete::Tombstone;
use crate::delete::tombs_v;
use crate::object_store::ObjectStore;
use crate::object_store::StoredFile;
use crate::scan::duplicate_batch;
use crate::types::PartitionId;
use crate::types::SequenceNumber;
use crate::types::Timestamp;
use crate::types::TombstoneId;
use vstd::prelude::*;

verus! {

/// The schema-merged union of a run of snapshot batches, folded in order.
pub open spec fn fold_snaps(s: Seq<SnapshotBatch>) -> BatchV
    decreases s.len(),
{
    if s.len() == 0 {
        BatchV { rows: 0, cols: Map::empty() }
    } else {
        batch_extend(fold_snaps(s.drop_last()), s.last().data@)
    }
}

/// Whether every step of the snapshot fold meets a compatible schema.
pub open spec fn snaps_compat(s: Seq<SnapshotBatch>) -> bool
    decreases s.len(),
{
    if s.len() == 0 {
        true
    } else {
        snaps_compat(s.drop_last()) && crate::batch::batch_compat(
            fold_snaps(s.drop_last()),
            s.last().data@,
        )
    }
}

/// Whether every step of the snapshot fold keeps the row count in `usize`.
pub open spec fn snaps_rows_ok(s: Seq<SnapshotBatch>) -> bool
    decreases s.len(),
{
    if s.len() == 0 {
        true
    } else {
        snaps_rows_ok(s.drop_last()) && fold_snaps(s.drop_last()).rows + s.last().data@.rows
            <= usize::MAX
    }
}

/// Snapshot fold facts restrict to prefixes.
pub proof fn lemma_snaps_take(s: Seq<SnapshotBatch>, k: int)
    requires
        0 <= k <= s.len(),
    ensures
        snaps_compat(s) ==> snaps_compat(s.take(k)),
        snaps_rows_ok(s) ==> snaps_rows_ok(s.take(k)),
    decreases s.len(),
{
    if k == s.len() {
        assert(s.take(k) =~= s);
    } else if s.len() > 0 {
        assert(s.drop_last().take(k) =~= s.take(k));
        lemma_snaps_take(s.drop_last(), k);
    }
}

/// The timestamp of row `i` of a batch model: the value of its `time`
/// column there, when that column exists and the cell holds an `I64`.
pub open spec fn row_time_v(m: BatchV, i: int) -> Option<i64> {
    if m.cols.dom().contains("time"@) {
        match m.cols["time"@].cells[i] {
            Cell::I64(v) => Option::Some(v),
            _ => Option::None,
        }
    } else {
        Option::None
    }
}

/// Whether a row at time `t` falls in the inclusive time range of any
/// tombstone; rows without a timestamp are never considered deleted.
pub open spec fn time_deleted(t: Option<i64>, tombs: Seq<TombV>) -> bool {
    match t {
        Option::Some(v) => exists|k: int|
            0 <= k < tombs.len() && (#[trigger] tombs[k].min_time) <= v && v <= tombs[k].max_time,
        Option::None => false,
    }
}

/// The indices of the first `n` rows that survive the tombstones, in
/// order.
pub open spec fn kept_rows_v(m: BatchV, tombs: Seq<TombV>, n: int) -> Seq<int>
    decreases n,
{
    if n <= 0 {
        Seq::empty()
    } else {
        let rest = kept_rows_v(m, tombs, n - 1);
        if time_deleted(row_time_v(m, n - 1), tombs) {
            rest
        } else {
            rest.push(n - 1)
        }
    }
}

/// The model of a batch after the tombstones' time ranges are applied:
/// the same columns, restricted to the surviving rows.
pub open spec fn filter_model(m: BatchV, tombs: Seq<TombV>) -> BatchV {
    let kept = kept_rows_v(m, tombs, m.rows as int);
    BatchV {
        rows: kept.len(),
        cols: Map::new(
            |n: Seq<char>| m.cols.dom().contains(n),
            |n: Seq<char>|
                ColV {
                    typ: m.cols[n].typ,
                    cells: kept.map(|p: int, i: int| m.cols[n].cells[i]),
                },
        ),
    }
}

/// Whether row `i` of the batch survives: exec mirror of the spec filter.
#[verifier::loop_isolation(false)]
fn row_survives(b: &Batch, i: usize, tombs: &Vec<Tombstone>) -> (r: bool)
    requires
        b.wf(),
        i < b.row_count,
    ensures
        r == !time_deleted(row_time_v(b@, i as int), tombs_v(tombs@)),
{
    let time_name: String = "time".to_owned();
    let t: Option<i64> = match find_col(&b.columns, &time_name) {
        Option::Some(ci) => {
            proof {
                lemma_col_idx(b.columns@, ci as int);
            }
            match &b.columns[ci].cells[i] {
                Cell::I64(v) => Option::Some(*v),
                _ => Option::None,
            }
        },
        Option::None => Option::None,
    };
    let v = match t {
        Option::Some(v) => v,
        Option::None => {
            return true;
        },
    };
    let mut k: usize = 0;
    while k < tombs.len()
        invariant
            k <= tombs@.len(),
            forall|p: int|
                0 <= p < k ==> !((#[trigger] tombs_v(tombs@)[p].min_time) <= v && v <= tombs_v(
                    tombs@,
                )[p].max_time),
        decreases tombs@.len() - k,
    {
        if tombs[k].min_time.0 <= v && v <= tombs[k].max_time.0 {
            proof {
                assert(tombs_v(tombs@)[k as int].min_time <= v && v <= tombs_v(
                    tombs@,
                )[k as int].max_time);
            }
            return false;
        }
        k += 1;
    }
    proof {
        if time_deleted(row_time_v(b@, i as int), tombs_v(tombs@)) {
            let w = choose|w: int|
                0 <= w < tombs_v(tombs@).len() && (#[trigger] tombs_v(tombs@)[w].min_time) <= v
                    && v <= tombs_v(tombs@)[w].max_time;
            assert(!(tombs_v(tombs@)[w].min_time <= v && v <= tombs_v(tombs@)[w].max_time));
        }
    }
    true
}

/// Drops every row that falls inside a tombstone's time range, keeping
/// column names, types and the order of the surviving rows.
#[verifier::loop_isolation(false)]
#[verifier::rlimit(60)]
pub fn filter_deleted(b: &Batch, tombs: &Vec<Tombstone>) -> (r: Batch)
    requires
        b.wf(),
    ensures
        r.wf(),
        r@ == filter_model(b@, tombs_v(tombs@)),
        r.row_count == kept_rows_v(b@, tombs_v(tombs@), b.row_count as int).len(),
        r.columns@.len() == b.columns@.len(),
        forall|j: int|
            0 <= j < b.columns@.len() ==> (#[trigger] r.columns@[j].name@) == b.columns@[j].name@
                && r.columns@[j].typ == b.columns@[j].typ,
{
    let ghost tv = tombs_v(tombs@);
    let mut kept: Vec<usize> = Vec::new();
    let mut i: usize = 0;
    while i < b.row_count
        invariant
            i <= b.row_count,
            kept@.map(|p: int, x: usize| x as int) == kept_rows_v(b@, tv, i as int),
            forall|p: int| 0 <= p < kept@.len() ==> (#[trigger] kept@[p]) < i,
        decreases b.row_count - i,
    {
        if row_survives(b, i, tombs) {
            kept.push(i);
            proof {
                assert(kept@.map(|p: int, x: usize| x as int) =~= kept_rows_v(
                    b@,
                    tv,
                    i as int,
                ).push(i as int));
            }
        }
        i += 1;
    }
    let ghost keptv = kept_rows_v(b@, tv, b.row_count as int);
    proof {
        assert(kept@.map(|p: int, x: usize| x as int) == keptv);
        assert(kept@.len() == keptv.len());
    }
    let mut columns: Vec<Column> = Vec::new();
    let mut j: usize = 0;
    while j < b.columns.len()
        invariant
            j <= b.columns@.len(),
            columns@.len() == j,
            kept@.map(|p: int, x: usize| x as int) == keptv,
            kept@.len() == keptv.len(),
            forall|p: int| 0 <= p < kept@.len() ==> (#[trigger] kept@[p]) < b.row_count,
            forall|q: int|
                0 <= q < j ==> {
                    let c1 = #[trigger] columns@[q];
                    let c0 = b.columns@[q];
                    &&& c1.name@ == c0.name@
                    &&& c1.typ == c0.typ
                    &&& c1.cells@ == keptv.map(|p: int, x: int| c0.cells@[x])
                    &&& c1.cells@.len() == keptv.len()
                },
        decreases b.columns@.len() - j,
    {
        let c = &b.columns[j];
        let mut cells: Vec<Cell> = Vec::new();
        let mut m: usize = 0;
        while m < kept.len()
            invariant
                m <= kept@.len(),
                cells@ == keptv.take(m as int).map(|p: int, x: int| c.cells@[x]),
            decreases kept@.len() - m,
        {
            let idx = kept[m];
            proof {
                assert(kept@.map(|p: int, x: usize| x as int)[m as int] == idx as int);
                assert(keptv[m as int] == idx as int);
            }
            let cc = clone_cell(&c.cells[idx]);
            cells.push(cc);
            proof {
                assert(keptv.take(m as int + 1).map(|p: int, x: int| c.cells@[x]) =~= keptv.take(
                    m as int,
                ).map(|p: int, x: int| c.cells@[x]).push(c.cells@[keptv[m as int]]));
            }
            m += 1;
        }
        proof {
            assert(keptv.take(keptv.len() as int) =~= keptv);
            assert(cells@ =~= keptv.map(|p: int, x: int| c.cells@[x]));
        }
        let name = c.name.clone();
        let typ = c.typ;
        columns.push(Column { name, typ, cells });
        j += 1;
    }
    let r = Batch { row_count: kept.len(), columns };
    proof {
        lemma_filter_result(*b, r, tv);
    }
    r
}

/// A column-wise filtered batch has the filtered model.
proof fn lemma_filter_result(b: Batch, r: Batch, tombs: Seq<TombV>)
    requires
        b.wf(),
        r.row_count == kept_rows_v(b@, tombs, b.row_count as int).len(),
        r.columns@.len() == b.columns@.len(),
        forall|q: int|
            0 <= q < b.columns@.len() ==> {
                let c1 = #[trigger] r.columns@[q];
                let c0 = b.columns@[q];
                &&& c1.name@ == c0.name@
                &&& c1.typ == c0.typ
                &&& c1.cells@ == kept_rows_v(b@, tombs, b.row_count as int).map(
                    |p: int, x: int| c0.cells@[x],
                )
                &&& c1.cells@.len() == kept_rows_v(b@, tombs, b.row_count as int).len()
            },
    ensures
        r.wf(),
        r@ == filter_model(b@, tombs),
{
    let kept = kept_rows_v(b@, tombs, b.row_count as int);
    lemma_kept_in_range(b@, tombs, b.row_count as int);
    assert forall|p: int, q: int|
        0 <= p < q < r.columns@.len() implies (#[trigger] r.columns@[p].name@) != (
    #[trigger] r.columns@[q].name@) by {
        assert(b.columns@[p].name@ != b.columns@[q].name@);
    }
    assert forall|q: int|
        0 <= q < r.columns@.len() implies (#[trigger] r.columns@[q].cells@.len()) == r.row_count
        && r.columns@[q].wf() by {
        let c1 = r.columns@[q];
        let c0 = b.columns@[q];
        assert(c1.cells@ == kept.map(|p: int, x: int| c0.cells@[x]));
        assert forall|k: int|
            0 <= k < c1.cells@.len() implies crate::batch::cell_ok(
            #[trigger] c1.cells@[k],
            c1.typ,
        ) by {
            assert(c1.cells@[k] == c0.cells@[kept[k]]);
            assert(0 <= kept[k] < b.row_count);
            assert(c0.cells@.len() == b.row_count && c0.wf());
            assert(crate::batch::cell_ok(c0.cells@[kept[k]], c0.typ));
        }
    }
    let fm = filter_model(b@, tombs);
    assert forall|n: Seq<char>| #[trigger] has_col(r.columns@, n) implies has_col(b.columns@, n) by {
        let q = col_idx(r.columns@, n);
        assert(b.columns@[q].name@ == n);
    }
    assert forall|n: Seq<char>| #[trigger] has_col(b.columns@, n) implies has_col(r.columns@, n) by {
        let q = col_idx(b.columns@, n);
        assert(r.columns@[q].name@ == n);
    }
    assert forall|n: Seq<char>| #[trigger] has_col(r.columns@, n) implies col_v(
        r.columns@[col_idx(r.columns@, n)],
    ) == fm.cols[n] by {
        let q1 = col_idx(r.columns@, n);
        let q0 = col_idx(b.columns@, n);
        assert(b.columns@[q1].name@ == n);
        assert(b.columns@[q0].name@ == n);
        if q0 < q1 {
            assert(b.columns@[q0].name@ != b.columns@[q1].name@);
        } else if q1 < q0 {
            assert(b.columns@[q1].name@ != b.columns@[q0].name@);
        }
        assert(q0 == q1);
        assert(b@.cols[n] == col_v(b.columns@[q0]));
        assert(r.columns@[q1].cells@ =~= kept.map(|p: int, x: int| b@.cols[n].cells[x]));
    }
    assert(r@.cols =~= fm.cols);
    assert(r@.rows == fm.rows);
}

/// Surviving row indices lie within the original row range.
proof fn lemma_kept_in_range(m: BatchV, tombs: Seq<TombV>, n: int)
    ensures
        forall|k: int|
            0 <= k < kept_rows_v(m, tombs, n).len() ==> 0 <= (#[trigger] kept_rows_v(
                m,
                tombs,
                n,
            )[k]) < n,
    decreases n,
{
    if n > 0 {
        lemma_kept_in_range(m, tombs, n - 1);
        let rest = kept_rows_v(m, tombs, n - 1);
        assert forall|k: int|
            0 <= k < kept_rows_v(m, tombs, n).len() implies 0 <= (#[trigger] kept_rows_v(
            m,
            tombs,
            n,
        )[k]) < n by {
            if !time_deleted(row_time_v(m, n - 1), tombs) {
                if k < rest.len() {
                    assert(kept_rows_v(m, tombs, n)[k] == rest[k]);
                }
            }
        }
    }
}


/// The least of the snapshots' minimum sequence numbers.
pub open spec fn snaps_min_seq(s: Seq<SnapshotBatch>) -> i64
    recommends
        s.len() > 0,
    decreases s.len(),
{
    if s.len() <= 1 {
        s[0].min_sequencer_number.0
    } else {
        let m = snaps_min_seq(s.drop_last());
        if s.last().min_sequencer_number.0 < m {
            s.last().min_sequencer_number.0
        } else {
            m
        }
    }
}

/// The greatest of the snapshots' maximum sequence numbers.
pub open spec fn snaps_max_seq(s: Seq<SnapshotBatch>) -> i64
    recommends
        s.len() > 0,
    decreases s.len(),
{
    if s.len() <= 1 {
        s[0].max_sequencer_number.0
    } else {
        let m = snaps_max_seq(s.drop_last());
        if s.last().max_sequencer_number.0 > m {
            s.last().max_sequencer_number.0
        } else {
            m
        }
    }
}

/// The greatest value among the `I64` cells of `s`, if any.
pub open spec fn max_i64(s: Seq<Cell>) -> Option<i64>
    decreases s.len(),
{
    if s.len() == 0 {
        Option::None
    } else {
        let rest = max_i64(s.drop_last());
        match s.last() {
            Cell::I64(v) => match rest {
                Option::None => Option::Some(v),
                Option::Some(m) => Option::Some(if v > m {
                    v
                } else {
                    m
                }),
            },
            _ => rest,
        }
    }
}

/// The greatest timestamp of a batch, like [`crate::scan::batch_min_time`].
pub open spec fn batch_max_time(b: Batch) -> Option<i64> {
    if has_col(b.columns@, "time"@) && b.columns@[col_idx(b.columns@, "time"@)].typ
        is I64 {
        max_i64(b.columns@[col_idx(b.columns@, "time"@)].cells@)
    } else {
        Option::None
    }
}

/// The greatest value of the batch's `time` column.
#[verifier::loop_isolation(false)]
fn batch_max_time_exec(b: &Batch) -> (r: Option<i64>)
    requires
        b.wf(),
    ensures
        r == batch_max_time(*b),
{
    let time_name: String = "time".to_owned();
    match find_col(&b.columns, &time_name) {
        Option::None => Option::None,
        Option::Some(i) => {
            proof {
                assert(has_col(b.columns@, "time"@));
                lemma_col_idx(b.columns@, i as int);
            }
            let c = &b.columns[i];
            if !(c.typ == crate::batch::ColType::I64) {
                return Option::None;
            }
            let mut best: Option<i64> = Option::None;
            let mut k: usize = 0;
            while k < c.cells.len()
                invariant
                    k <= c.cells@.len(),
                    best == max_i64(c.cells@.take(k as int)),
                decreases c.cells@.len() - k,
            {
                proof {
                    assert(c.cells@.take(k as int + 1).drop_last() =~= c.cells@.take(k as int));
                }
                match &c.cells[k] {
                    Cell::I64(v) => {
                        best = match best {
                            Option::None => Option::Some(*v),
                            Option::Some(m) => Option::Some(
                                if *v > m {
                                    *v
                                } else {
                                    m
                                },
                            ),
                        };
                    },
                    _ => {},
                }
                k += 1;
            }
            proof {
                assert(c.cells@.take(c.cells@.len() as int) =~= c.cells@);
            }
            best
        },
    }
}

/// What one compaction produced: the merged, tombstone-filtered batch and
/// its file-level statistics.
#[derive(Debug, PartialEq)]
pub struct CompactedData {
    pub data: Batch,
    pub min_time: i64,
    pub max_time: i64,
    pub min_sequence_number: i64,
    pub max_sequence_number: i64,
    pub row_count: usize,
}

/// An optional timestamp, defaulting to zero when absent.
pub open spec fn time_or_zero(t: Option<i64>) -> i64 {
    match t {
        Option::Some(v) => v,
        Option::None => 0,
    }
}

/// Merges a frozen partition's snapshots by schema union, drops the rows
/// that fall in its tombstones' time ranges, and computes the file-level
/// statistics.  The merged output is not sorted or deduplicated and the
/// tombstones' column comparisons are not evaluated: that is the
/// execution engine's work, outside this model.  `None` means nothing
/// survives and there is nothing to persist.  An error reports a schema
/// conflict or an impossible row count between snapshots: a
/// data-corruption bug, not retried.
#[verifier::loop_isolation(false)]
pub fn compact(q: &QueryableBatch) -> (r: Result<Option<CompactedData>, BatchError>)
    requires
        snapshots_wf(q.data@),
    ensures
        match r {
            Ok(opt) => {
                &&& snaps_compat(q.data@)
                &&& snaps_rows_ok(q.data@)
                &&& {
                    let fm = filter_model(fold_snaps(q.data@), tombs_v(q.deletes@));
                    match opt {
                        Option::Some(c) => {
                            &&& fm.rows > 0
                            &&& q.data@.len() > 0
                            &&& c.data.wf()
                            &&& c.data@ == fm
                            &&& c.row_count == fm.rows
                            &&& c.min_sequence_number == snaps_min_seq(q.data@)
                            &&& c.max_sequence_number == snaps_max_seq(q.data@)
                            &&& c.min_time == time_or_zero(
                                crate::scan::batch_min_time(c.data),
                            )
                            &&& c.max_time == time_or_zero(batch_max_time(c.data))
                        },
                        Option::None => fm.rows == 0,
                    }
                }
            },
            Err(e) => !snaps_compat(q.data@) || !snaps_rows_ok(q.data@),
        },
{
    let n = q.data.len();
    let mut acc = Batch::new();
    let mut i: usize = 0;
    while i < n
        invariant
            i <= n,
            n == q.data@.len(),
            acc.wf(),
            acc@ == fold_snaps(q.data@.take(i as int)),
            snaps_compat(q.data@.take(i as int)),
            snaps_rows_ok(q.data@.take(i as int)),
        decreases n - i,
    {
        proof {
            assert(q.data@.take(i as int + 1).drop_last() =~= q.data@.take(i as int));
            assert(q.data@.take(i as int + 1).last() == q.data@[i as int]);
        }
        let b = &q.data[i].data;
        if usize::MAX - acc.row_count < b.row_count {
            proof {
                if snaps_rows_ok(q.data@) {
                    lemma_snaps_take(q.data@, i as int + 1);
                }
            }
            return Err(BatchError::RowCountOverflow);
        }
        match acc.extend_from(b) {
            Ok(_) => {},
            Err(e) => {
                proof {
                    if snaps_compat(q.data@) {
                        lemma_snaps_take(q.data@, i as int + 1);
                    }
                }
                return Err(BatchError::TypeMismatch { column: match e {
                    BatchError::TypeMismatch { column } => column,
                    BatchError::RowCountOverflow => String::new(),
                } });
            },
        }
        i += 1;
    }
    proof {
        assert(q.data@.take(n as int) =~= q.data@);
    }
    let filtered = filter_deleted(&acc, &q.deletes);
    if filtered.row_count == 0 {
        return Ok(Option::None);
    }
    // a surviving row implies a nonempty snapshot list
    proof {
        lemma_kept_in_range(acc@, tombs_v(q.deletes@), acc.row_count as int);
        if q.data@.len() == 0 {
            assert(acc@.rows == 0);
            assert(kept_rows_v(acc@, tombs_v(q.deletes@), 0).len() == 0);
        }
    }
    let mut min_seq = q.data[0].min_sequencer_number.0;
    let mut max_seq = q.data[0].max_sequencer_number.0;
    let mut k: usize = 1;
    while k < n
        invariant
            1 <= k <= n,
            n == q.data@.len(),
            min_seq == snaps_min_seq(q.data@.take(k as int)),
            max_seq == snaps_max_seq(q.data@.take(k as int)),
        decreases n - k,
    {
        proof {
            assert(q.data@.take(k as int + 1).drop_last() =~= q.data@.take(k as int));
            assert(q.data@.take(k as int + 1).last() == q.data@[k as int]);
        }
        if q.data[k].min_sequencer_number.0 < min_seq {
            min_seq = q.data[k].min_sequencer_number.0;
        }
        if q.data[k].max_sequencer_number.0 > max_seq {
            max_seq = q.data[k].max_sequencer_number.0;
        }
        k += 1;
    }
    proof {
        assert(q.data@.take(n as int) =~= q.data@);
        assert(q.data@.take(1).drop_last() =~= Seq::<SnapshotBatch>::empty());
    }
    let min_time = match filtered.min_time() {
        Option::Some(v) => v,
        Option::None => 0i64,
    };
    let max_time = match batch_max_time_exec(&filtered) {
        Option::Some(v) => v,
        Option::None => 0i64,
    };
    let row_count = filtered.row_count;
    Ok(
        Option::Some(
            CompactedData {
                data: filtered,
                min_time,
                max_time,
                min_sequence_number: min_seq,
                max_sequence_number: max_seq,
                row_count,
            },
        ),
    )
}


/// Fetches the partition's catalog record, retrying transient failures
/// until the catalog answers; the fault schedule bounds the retries.
fn fetch_partition_info(catalog: &mut Catalog, partition_id: PartitionId) -> (r: Option<
    PartitionInfo,
>)
    ensures
        same_core(*old(catalog), *final(catalog)),
        match r {
            Option::Some(info) => {
                &&& info.partition.id == partition_id
                &&& crate::catalog::has_partition_id(old(catalog).partitions@, partition_id.0)
                &&& exists|i: int|
                    0 <= i < old(catalog).partitions@.len() && (#[trigger] old(
                        catalog,
                    ).partitions@[i].id.0) == partition_id.0 && info.partition.sequencer_id == old(
                        catalog,
                    ).partitions@[i].sequencer_id && info.partition.table_id == old(
                        catalog,
                    ).partitions@[i].table_id && info.partition.partition_key@ == old(
                        catalog,
                    ).partitions@[i].partition_key@
                &&& exists|i: int, j: int|
                    0 <= i < old(catalog).namespaces@.len() && 0 <= j < old(
                        catalog,
                    ).tables@.len() && (#[trigger] old(catalog).tables@[j].id.0)
                        == info.partition.table_id.0 && info.table_name@ == old(
                        catalog,
                    ).tables@[j].name@ && (#[trigger] old(catalog).namespaces@[i].id.0) == old(
                        catalog,
                    ).tables@[j].namespace_id.0 && info.namespace_name@ == old(
                        catalog,
                    ).namespaces@[i].name@
            },
            Option::None => !crate::catalog::has_partition_id(
                old(catalog).partitions@,
                partition_id.0,
            ) || (exists|i: int|
                0 <= i < old(catalog).partitions@.len() && (#[trigger] old(
                    catalog,
                ).partitions@[i].id.0) == partition_id.0 && !crate::catalog::has_table_id(
                    old(catalog).tables@,
                    old(catalog).partitions@[i].table_id.0,
                )) || (exists|i: int, j: int|
                0 <= i < old(catalog).partitions@.len() && 0 <= j < old(catalog).tables@.len() && (
                #[trigger] old(catalog).partitions@[i].id.0) == partition_id.0 && (#[trigger] old(
                    catalog,
                ).tables@[j].id.0) == old(catalog).partitions@[i].table_id.0
                    && !crate::catalog::has_namespace_id(
                    old(catalog).namespaces@,
                    old(catalog).tables@[j].namespace_id.0,
                )),
        },
{
    loop
        invariant
            same_core(*old(catalog), *catalog),
        decreases catalog.faults@.len(),
    {
        match catalog.partition_info_by_id(partition_id) {
            Ok(found) => {
                return found;
            },
            Err(_) => {},
        }
    }
}

/// Writes the compacted batch durably under the batch's identifier,
/// retrying transient store failures until the write lands.
fn store_compacted(object_store: &mut ObjectStore, object_store_id: u128, data: &Batch)
    ensures
        final(object_store).files@.len() == old(object_store).files@.len() + 1,
        final(object_store).files@.drop_last() == old(object_store).files@,
        final(object_store).files@.last().object_store_id == object_store_id,
        final(object_store).files@.last().data.row_count == data.row_count,
        data.wf() ==> final(object_store).files@.last().data@ == data@,
{
    loop
        invariant
            object_store.files == old(object_store).files,
        decreases object_store.faults@.len(),
    {
        let copy = duplicate_batch(data);
        match object_store.put(object_store_id, copy) {
            Ok(_) => {
                return ;
            },
            Err(_) => {},
        }
    }
}

/// Commits the file record and its applied tombstones to the catalog in
/// one transaction, retrying the whole transaction from scratch on any
/// failure until a commit lands.  The commit is the durability boundary:
/// a failed attempt leaves no trace.
#[verifier::loop_isolation(false)]
fn commit_file(catalog: &mut Catalog, file: &ParquetFileParams, tombstones: &Vec<Tombstone>)
    requires
        old(catalog).next_id < i64::MAX,
    ensures
        ({
            let c1 = *final(catalog);
            let c0 = *old(catalog);
            &&& c1 == (Catalog {
                parquet_files: c1.parquet_files,
                processed_tombstones: c1.processed_tombstones,
                next_id: c1.next_id,
                faults: c1.faults,
                ..c0
            })
            &&& c1.parquet_files@.len() == c0.parquet_files@.len() + 1
            &&& c1.parquet_files@.drop_last() == c0.parquet_files@
            &&& {
                let rec = c1.parquet_files@.last();
                &&& rec.sequencer_id == file.sequencer_id
                &&& rec.table_id == file.table_id
                &&& rec.partition_id == file.partition_id
                &&& rec.object_store_id == file.object_store_id
                &&& rec.min_sequence_number == file.min_sequence_number
                &&& rec.max_sequence_number == file.max_sequence_number
                &&& rec.min_time == file.min_time
                &&& rec.max_time == file.max_time
                &&& rec.row_count == file.row_count
                &&& !rec.to_delete
            }
            &&& c1.processed_tombstones@ == c0.processed_tombstones@ + tombstones@.map(
                |i: int, t: Tombstone| (c1.parquet_files@.last().id, t.id),
            )
        }),
{
    loop
        invariant
            same_core(*old(catalog), *catalog),
        decreases catalog.faults@.len(),
    {
        let ghost f0 = catalog.faults@.len();
        let mut txn: CatalogTransaction = match catalog.start_transaction() {
            Ok(t) => t,
            Err(_) => {
                continue ;
            },
        };
        match catalog.add_parquet_file_with_tombstones(file, tombstones, &mut txn) {
            Ok(_) => {},
            Err(_) => {
                continue ;
            },
        }
        let ghost tids = txn.tombstone_ids@;
        let ghost cat_pre = *catalog;
        match catalog.commit_txn(txn) {
            Ok(_) => {
                proof {
                    assert(tids =~= tombstones@.map(|i: int, t: Tombstone| t.id));
                    let c1 = *catalog;
                    let rec_id = c1.parquet_files@.last().id;
                    assert(rec_id == cat_pre.next_id);
                    assert(c1.processed_tombstones@ == cat_pre.processed_tombstones@ + tids.map(
                        |i: int, t: TombstoneId| (cat_pre.next_id, t),
                    ));
                    assert(tids.map(|i: int, t: TombstoneId| (cat_pre.next_id, t))
                        =~= tombstones@.map(|i: int, t: Tombstone| (rec_id, t.id)));
                }
                return ;
            },
            Err(_) => {
                continue ;
            },
        }
    }
}

/// The schema-merged union of a run of snapshot models, folded in order.
pub open spec fn fold_snapv(s: Seq<SnapV>) -> BatchV
    decreases s.len(),
{
    if s.len() == 0 {
        BatchV { rows: 0, cols: Map::empty() }
    } else {
        batch_extend(fold_snapv(s.drop_last()), s.last().data)
    }
}

/// Whether every step of the model fold meets a compatible schema.
pub open spec fn snapv_compat(s: Seq<SnapV>) -> bool
    decreases s.len(),
{
    if s.len() == 0 {
        true
    } else {
        snapv_compat(s.drop_last()) && crate::batch::batch_compat(
            fold_snapv(s.drop_last()),
            s.last().data,
        )
    }
}

/// Whether every step of the model fold keeps the row count in `usize`.
pub open spec fn snapv_rows_ok(s: Seq<SnapV>) -> bool
    decreases s.len(),
{
    if s.len() == 0 {
        true
    } else {
        snapv_rows_ok(s.drop_last()) && fold_snapv(s.drop_last()).rows + s.last().data.rows
            <= usize::MAX
    }
}

/// The least of the snapshot models' minimum sequence numbers.
pub open spec fn snapv_min_seq(s: Seq<SnapV>) -> i64
    recommends
        s.len() > 0,
    decreases s.len(),
{
    if s.len() <= 1 {
        s[0].min_seq
    } else {
        let m = snapv_min_seq(s.drop_last());
        if s.last().min_seq < m {
            s.last().min_seq
        } else {
            m
        }
    }
}

/// The greatest of the snapshot models' maximum sequence numbers.
pub open spec fn snapv_max_seq(s: Seq<SnapV>) -> i64
    recommends
        s.len() > 0,
    decreases s.len(),
{
    if s.len() <= 1 {
        s[0].max_seq
    } else {
        let m = snapv_max_seq(s.drop_last());
        if s.last().max_seq > m {
            s.last().max_seq
        } else {
            m
        }
    }
}

/// Snapshot-level folds and bounds equal their model-level counterparts.
pub proof fn lemma_snaps_view(s: Seq<SnapshotBatch>)
    ensures
        fold_snaps(s) == fold_snapv(snaps_v(s)),
        snaps_compat(s) == snapv_compat(snaps_v(s)),
        snaps_rows_ok(s) == snapv_rows_ok(snaps_v(s)),
        s.len() > 0 ==> snaps_min_seq(s) == snapv_min_seq(snaps_v(s)) && snaps_max_seq(s)
            == snapv_max_seq(snaps_v(s)),
    decreases s.len(),
{
    if s.len() > 0 {
        lemma_snaps_view(s.drop_last());
        assert(snaps_v(s).drop_last() =~= snaps_v(s.drop_last()));
        assert(snaps_v(s).last() == snap_v(s.last()));
    }
}

/// The least timestamp of a batch model, as the compaction statistics
/// read it.
pub open spec fn model_min_time(m: BatchV) -> Option<i64> {
    if m.cols.dom().contains("time"@) && m.cols["time"@].typ is I64 {
        crate::scan::min_i64(m.cols["time"@].cells)
    } else {
        Option::None
    }
}

/// The greatest timestamp of a batch model.
pub open spec fn model_max_time(m: BatchV) -> Option<i64> {
    if m.cols.dom().contains("time"@) && m.cols["time"@].typ is I64 {
        max_i64(m.cols["time"@].cells)
    } else {
        Option::None
    }
}

/// On a well-formed batch the exec-level time bounds read the model.
pub proof fn lemma_time_model(b: Batch)
    requires
        b.wf(),
    ensures
        crate::scan::batch_min_time(b) == model_min_time(b@),
        batch_max_time(b) == model_max_time(b@),
{
    if has_col(b.columns@, "time"@) {
        let i = col_idx(b.columns@, "time"@);
        assert(b@.cols.dom().contains("time"@));
        assert(b@.cols["time"@] == col_v(b.columns@[i]));
    }
}

/// The snapshot models one freeze produces from a partition's buffer: the
/// standing snapshots, plus the folded mutable stage when it is nonempty.
pub open spec fn frozen_snaps_of(db: DataBuffer) -> Seq<SnapV> {
    if db.buffer@.len() == 0 {
        snaps_v(db.snapshots@)
    } else {
        snaps_v(db.snapshots@).push(
            SnapV {
                min_seq: db.buffer@[0].sequencer_number.0,
                max_seq: db.buffer@.last().sequencer_number.0,
                data: fold_batches(db.buffer@),
            },
        )
    }
}

/// How a namespace's table list looks right after one partition is
/// frozen: only that partition's buffer changed, into the frozen state.
pub open spec fn freeze_mid(
    t0: Seq<(String, TableData)>,
    mid: Seq<(String, TableData)>,
    ti: int,
    pi: int,
) -> bool {
    &&& 0 <= ti < t0.len()
    &&& 0 <= pi < t0[ti].1.partition_data@.len()
    &&& mid.len() == t0.len()
    &&& (forall|j: int| 0 <= j < t0.len() && j != ti ==> (#[trigger] mid[j]) == t0[j])
    &&& mid[ti].0 == t0[ti].0
    &&& mid[ti].1.table_id == t0[ti].1.table_id
    &&& mid[ti].1.partition_data@.len() == t0[ti].1.partition_data@.len()
    &&& (forall|p: int|
        0 <= p < t0[ti].1.partition_data@.len() && p != pi ==> (
        #[trigger] mid[ti].1.partition_data@[p]) == t0[ti].1.partition_data@[p])
    &&& mid[ti].1.partition_data@[pi].0 == t0[ti].1.partition_data@[pi].0
    &&& mid[ti].1.partition_data@[pi].1.id == t0[ti].1.partition_data@[pi].1.id
    &&& mid[ti].1.partition_data@[pi].1.data_buffer.buffer@.len() == 0
    &&& mid[ti].1.partition_data@[pi].1.data_buffer.snapshots@.len() == 0
    &&& mid[ti].1.partition_data@[pi].1.data_buffer.deletes@.len() == 0
}

/// Whether the tree resolves one catalog partition record down to a
/// partition that is free to persist: the path exists and the frozen
/// content folds cleanly.
pub open spec fn tree_resolves(
    t: IngesterData,
    p: Partition,
    tname: Seq<char>,
    nsname: Seq<char>,
) -> bool {
    &&& has_seq(t.sequencers@, p.sequencer_id.0)
    &&& {
        let sd = t.sequencers@[seq_idx(t.sequencers@, p.sequencer_id.0)].1;
        &&& has_key(sd.namespaces@, nsname)
        &&& {
            let nd = sd.namespaces@[key_idx(sd.namespaces@, nsname)].1;
            &&& has_key(nd.tables@, tname)
            &&& {
                let td = nd.tables@[key_idx(nd.tables@, tname)].1;
                &&& has_key(td.partition_data@, p.partition_key@)
                &&& {
                    let pd = td.partition_data@[key_idx(
                        td.partition_data@,
                        p.partition_key@,
                    )].1;
                    &&& pd.data_buffer.persisting is None
                    &&& fold_compat(pd.data_buffer.buffer@)
                    &&& snapv_compat(frozen_snaps_of(pd.data_buffer))
                    &&& snapv_rows_ok(frozen_snaps_of(pd.data_buffer))
                }
            }
        }
    }
}

/// Inputs on which a persist cycle is owed success: the catalog locates
/// the partition, every matching join resolves in the tree, no persist is
/// in flight there, and the frozen content folds cleanly.
pub open spec fn persist_ready(t: IngesterData, c: Catalog, pid: PartitionId) -> bool {
    &&& has_partition_id(c.partitions@, pid.0)
    &&& forall|ci: int|
        0 <= ci < c.partitions@.len() && (#[trigger] c.partitions@[ci].id.0) == pid.0 ==> {
            let p = c.partitions@[ci];
            &&& has_table_id(c.tables@, p.table_id.0)
            &&& forall|tj: int|
                0 <= tj < c.tables@.len() && (#[trigger] c.tables@[tj].id.0) == p.table_id.0 ==> {
                    &&& has_namespace_id(c.namespaces@, c.tables@[tj].namespace_id.0)
                    &&& forall|nj: int|
                        0 <= nj < c.namespaces@.len() && (#[trigger] c.namespaces@[nj].id.0)
                            == c.tables@[tj].namespace_id.0 ==> tree_resolves(
                            t,
                            p,
                            c.tables@[tj].name@,
                            c.namespaces@[nj].name@,
                        )
                }
        }
}

/// What a persist cycle that wrote a file did: one partition of the old
/// tree was frozen, compacted and released, the record's statistics are
/// those of its filtered, merged content, and the applied tombstones are
/// linked to the record.
pub open spec fn persist_effect(
    t0: IngesterData,
    t1: IngesterData,
    c0: Catalog,
    c1: Catalog,
    rec: crate::catalog::ParquetFileRecord,
    blob: Batch,
    pid: PartitionId,
) -> bool {
    exists|si: int, ni: int, ti: int, pi: int|
        {
            &&& 0 <= si < t0.sequencers@.len()
            &&& 0 <= ni < t0.sequencers@[si].1.namespaces@.len()
            &&& 0 <= ti < t0.sequencers@[si].1.namespaces@[ni].1.tables@.len()
            &&& 0 <= pi < t0.sequencers@[si].1.namespaces@[ni].1.tables@[ti].1.partition_data@.len()
            &&& {
                let ns0 = t0.sequencers@[si].1.namespaces@[ni].1.tables@;
                let pd = (#[trigger] t0.sequencers@[si].1.namespaces@[ni].1.tables@[ti].1.partition_data@[pi]).1;
                let frozen = frozen_snaps_of(pd.data_buffer);
                let fm = filter_model(fold_snapv(frozen), tombs_v(pd.data_buffer.deletes@));
                &&& pd.data_buffer.persisting is None
                &&& rec.partition_id == pid
                &&& rec.sequencer_id == t0.sequencers@[si].0
                &&& rec.table_id == ns0[ti].1.table_id
                &&& frozen.len() > 0
                &&& fm.rows > 0
                &&& rec.row_count == fm.rows
                &&& rec.min_sequence_number.0 == snapv_min_seq(frozen)
                &&& rec.max_sequence_number.0 == snapv_max_seq(frozen)
                &&& rec.min_time.0 == time_or_zero(model_min_time(fm))
                &&& rec.max_time.0 == time_or_zero(model_max_time(fm))
                // the stored blob holds exactly the filtered, merged content
                &&& blob@ == fm
                // the catalog's join for the target names this path
                &&& catalog_locates(
                    c0,
                    pid,
                    t0.sequencers@[si].0.0,
                    t0.sequencers@[si].1.namespaces@[ni].0@,
                    ns0[ti].0@,
                    t0.sequencers@[si].1.namespaces@[ni].1.tables@[ti].1.partition_data@[pi].0@,
                )
                // the applied tombstones are linked to the record
                &&& c1.processed_tombstones@ == c0.processed_tombstones@
                    + pd.data_buffer.deletes@.map(|q: int, t: Tombstone| (rec.id, t.id))
                // the tree: other sequencers and namespaces untouched; in the
                // touched namespace the partition was frozen, then released
                &&& t1.sequencers@.len() == t0.sequencers@.len()
                &&& (forall|j: int|
                    0 <= j < t0.sequencers@.len() && j != si ==> (#[trigger] t1.sequencers@[j])
                        == t0.sequencers@[j])
                &&& t1.sequencers@[si].0 == t0.sequencers@[si].0
                &&& t1.sequencers@[si].1.namespaces@.len() == t0.sequencers@[
                si].1.namespaces@.len()
                &&& (forall|q: int|
                    0 <= q < t0.sequencers@[si].1.namespaces@.len() && q != ni ==> (
                    #[trigger] t1.sequencers@[si].1.namespaces@[q]) == t0.sequencers@[
                    si].1.namespaces@[q])
                &&& t1.sequencers@[si].1.namespaces@[ni].0 == t0.sequencers@[si].1.namespaces@[
                ni].0
                &&& exists|mid: Seq<(String, TableData)>|
                    #![trigger mark_persisted_effect(mid, t1.sequencers@[si].1.namespaces@[ni].1.tables@, mid[ti].0@, mid[ti].1.partition_data@[pi].0@)]
                    {
                        &&& freeze_mid(ns0, mid, ti, pi)
                        &&& mark_persisted_effect(
                            mid,
                            t1.sequencers@[si].1.namespaces@[ni].1.tables@,
                            mid[ti].0@,
                            mid[ti].1.partition_data@[pi].0@,
                        )
                    }
            }
        }
}

/// Whether the catalog's join for `pid` names exactly the given path: a
/// partition record with that id whose sequencer, table name, namespace
/// name and partition key are the path's.
pub open spec fn catalog_locates(
    c: Catalog,
    pid: PartitionId,
    sequencer: i16,
    nsname: Seq<char>,
    tname: Seq<char>,
    pkey: Seq<char>,
) -> bool {
    exists|ci: int, tj: int, nj: int|
        {
            &&& 0 <= ci < c.partitions@.len()
            &&& 0 <= tj < c.tables@.len()
            &&& 0 <= nj < c.namespaces@.len()
            &&& (#[trigger] c.partitions@[ci].id.0) == pid.0
            &&& c.partitions@[ci].sequencer_id.0 == sequencer
            &&& c.partitions@[ci].partition_key@ == pkey
            &&& (#[trigger] c.tables@[tj].id.0) == c.partitions@[ci].table_id.0
            &&& c.tables@[tj].name@ == tname
            &&& (#[trigger] c.namespaces@[nj].id.0) == c.tables@[tj].namespace_id.0
            &&& c.namespaces@[nj].name@ == nsname
        }
}

/// Whether two trees hold the same buffered data, level by level.
pub open spec fn same_tree(a: IngesterData, b: IngesterData) -> bool {
    &&& b.sequencers@.len() == a.sequencers@.len()
    &&& forall|si: int|
        0 <= si < a.sequencers@.len() ==> {
            let ea = #[trigger] a.sequencers@[si];
            let eb = b.sequencers@[si];
            &&& eb.0 == ea.0
            &&& eb.1.namespaces@.len() == ea.1.namespaces@.len()
            &&& forall|ni: int|
                0 <= ni < ea.1.namespaces@.len() ==> {
                    let na = #[trigger] ea.1.namespaces@[ni];
                    let nb = eb.1.namespaces@[ni];
                    &&& nb.0 == na.0
                    &&& nb.1.namespace_id == na.1.namespace_id
                    &&& nb.1.tables@.len() == na.1.tables@.len()
                    &&& forall|ti: int|
                        0 <= ti < na.1.tables@.len() ==> {
                            let ta = #[trigger] na.1.tables@[ti];
                            let tb = nb.1.tables@[ti];
                            &&& tb.0 == ta.0
                            &&& tb.1.table_id == ta.1.table_id
                            &&& tb.1.partition_data@.len() == ta.1.partition_data@.len()
                            &&& forall|pi: int|
                                0 <= pi < ta.1.partition_data@.len() ==> (
                                #[trigger] tb.1.partition_data@[pi]) == ta.1.partition_data@[pi]
                        }
                }
        }
}

/// Whether exactly one partition of the tree was frozen in place for the
/// given target: its stages emptied into a persisting batch carrying
/// `pid`, everything else untouched.
pub open spec fn tree_frozen_in_place(t0: IngesterData, t1: IngesterData, pid: PartitionId) -> bool {
    exists|si: int, ni: int, ti: int, pi: int|
        {
            &&& 0 <= si < t0.sequencers@.len()
            &&& 0 <= ni < t0.sequencers@[si].1.namespaces@.len()
            &&& 0 <= ti < t0.sequencers@[si].1.namespaces@[ni].1.tables@.len()
            &&& 0 <= pi < t0.sequencers@[si].1.namespaces@[ni].1.tables@[ti].1.partition_data@.len()
            &&& {
                let ns0 = t0.sequencers@[si].1.namespaces@[ni].1.tables@;
                let pd0 = (#[trigger] t0.sequencers@[si].1.namespaces@[ni].1.tables@[ti].1.partition_data@[pi]).1;
                &&& pd0.data_buffer.persisting is None
                &&& t1.sequencers@.len() == t0.sequencers@.len()
                &&& (forall|j: int|
                    0 <= j < t0.sequencers@.len() && j != si ==> (#[trigger] t1.sequencers@[j])
                        == t0.sequencers@[j])
                &&& t1.sequencers@[si].0 == t0.sequencers@[si].0
                &&& t1.sequencers@[si].1.namespaces@.len() == t0.sequencers@[
                si].1.namespaces@.len()
                &&& (forall|q: int|
                    0 <= q < t0.sequencers@[si].1.namespaces@.len() && q != ni ==> (
                    #[trigger] t1.sequencers@[si].1.namespaces@[q]) == t0.sequencers@[
                    si].1.namespaces@[q])
                &&& t1.sequencers@[si].1.namespaces@[ni].0 == t0.sequencers@[si].1.namespaces@[
                ni].0
                &&& freeze_mid(ns0, t1.sequencers@[si].1.namespaces@[ni].1.tables@, ti, pi)
                &&& {
                    let pd1 = t1.sequencers@[si].1.namespaces@[ni].1.tables@[
                    ti].1.partition_data@[pi].1;
                    &&& pd1.data_buffer.persisting is Some
                    &&& pd1.data_buffer.persisting.unwrap().partition_id == pid
                }
            }
        }
}

/// What a persist cycle that found nothing to persist did: the targeted
/// partition of the old tree survives no row of compaction, it was frozen
/// in place — the batch left for the caller to clear — and nothing else
/// changed.
pub open spec fn persist_nothing(
    t0: IngesterData,
    t1: IngesterData,
    c0: Catalog,
    pid: PartitionId,
) -> bool {
    exists|si: int, ni: int, ti: int, pi: int|
        {
            &&& 0 <= si < t0.sequencers@.len()
            &&& 0 <= ni < t0.sequencers@[si].1.namespaces@.len()
            &&& 0 <= ti < t0.sequencers@[si].1.namespaces@[ni].1.tables@.len()
            &&& 0 <= pi < t0.sequencers@[si].1.namespaces@[ni].1.tables@[ti].1.partition_data@.len()
            &&& {
                let ns0 = t0.sequencers@[si].1.namespaces@[ni].1.tables@;
                let pd0 = (#[trigger] t0.sequencers@[si].1.namespaces@[ni].1.tables@[ti].1.partition_data@[pi]).1;
                let frozen = frozen_snaps_of(pd0.data_buffer);
                let fm = filter_model(fold_snapv(frozen), tombs_v(pd0.data_buffer.deletes@));
                &&& pd0.data_buffer.persisting is None
                &&& fm.rows == 0
                &&& catalog_locates(
                    c0,
                    pid,
                    t0.sequencers@[si].0.0,
                    t0.sequencers@[si].1.namespaces@[ni].0@,
                    ns0[ti].0@,
                    t0.sequencers@[si].1.namespaces@[ni].1.tables@[ti].1.partition_data@[pi].0@,
                )
                &&& t1.sequencers@.len() == t0.sequencers@.len()
                &&& (forall|j: int|
                    0 <= j < t0.sequencers@.len() && j != si ==> (#[trigger] t1.sequencers@[j])
                        == t0.sequencers@[j])
                &&& t1.sequencers@[si].0 == t0.sequencers@[si].0
                &&& t1.sequencers@[si].1.namespaces@.len() == t0.sequencers@[
                si].1.namespaces@.len()
                &&& (forall|q: int|
                    0 <= q < t0.sequencers@[si].1.namespaces@.len() && q != ni ==> (
                    #[trigger] t1.sequencers@[si].1.namespaces@[q]) == t0.sequencers@[
                    si].1.namespaces@[q])
                &&& t1.sequencers@[si].1.namespaces@[ni].0 == t0.sequencers@[si].1.namespaces@[
                ni].0
                &&& freeze_mid(ns0, t1.sequencers@[si].1.namespaces@[ni].1.tables@, ti, pi)
                &&& {
                    let pd1 = t1.sequencers@[si].1.namespaces@[ni].1.tables@[
                    ti].1.partition_data@[pi].1;
                    &&& pd1.data_buffer.persisting is Some
                    &&& pd1.data_buffer.persisting.unwrap().partition_id == pid
                }
            }
        }
}

/// Whether some partition of the old tree blocks a persist: a batch
/// already in flight when `busy`, an incompatible or oversized fold
/// otherwise.
pub open spec fn persist_blocked(t: IngesterData, busy: bool) -> bool {
    exists|si: int, ni: int, ti: int, pi: int|
        {
            &&& 0 <= si < t.sequencers@.len()
            &&& 0 <= ni < t.sequencers@[si].1.namespaces@.len()
            &&& 0 <= ti < t.sequencers@[si].1.namespaces@[ni].1.tables@.len()
            &&& 0 <= pi < t.sequencers@[si].1.namespaces@[ni].1.tables@[ti].1.partition_data@.len()
            &&& {
                let pd = (#[trigger] t.sequencers@[si].1.namespaces@[ni].1.tables@[ti].1.partition_data@[pi]).1;
                if busy {
                    pd.data_buffer.persisting is Some
                } else {
                    !fold_compat(pd.data_buffer.buffer@) || !snapv_compat(
                        frozen_snaps_of(pd.data_buffer),
                    ) || !snapv_rows_ok(frozen_snaps_of(pd.data_buffer))
                }
            }
        }
}

/// A ready catalog-and-tree pair resolves the fetched partition
/// information all the way down to a partition that is free to persist.
proof fn lemma_ready_resolves(t: IngesterData, c: Catalog, pid: PartitionId, info: PartitionInfo)
    requires
        persist_ready(t, c, pid),
        exists|i: int|
            0 <= i < c.partitions@.len() && (#[trigger] c.partitions@[i].id.0) == pid.0
                && info.partition.sequencer_id == c.partitions@[i].sequencer_id
                && info.partition.table_id == c.partitions@[i].table_id
                && info.partition.partition_key@ == c.partitions@[i].partition_key@,
        exists|i: int, j: int|
            0 <= i < c.namespaces@.len() && 0 <= j < c.tables@.len() && (
            #[trigger] c.tables@[j].id.0) == info.partition.table_id.0 && info.table_name@
                == c.tables@[j].name@ && (#[trigger] c.namespaces@[i].id.0)
                == c.tables@[j].namespace_id.0 && info.namespace_name@ == c.namespaces@[i].name@,
    ensures
        has_seq(t.sequencers@, info.partition.sequencer_id.0),
        ({
            let sd = t.sequencers@[seq_idx(t.sequencers@, info.partition.sequencer_id.0)].1;
            &&& has_key(sd.namespaces@, info.namespace_name@)
            &&& {
                let nd = sd.namespaces@[key_idx(sd.namespaces@, info.namespace_name@)].1;
                &&& has_key(nd.tables@, info.table_name@)
                &&& {
                    let td = nd.tables@[key_idx(nd.tables@, info.table_name@)].1;
                    &&& has_key(td.partition_data@, info.partition.partition_key@)
                    &&& {
                        let pd = td.partition_data@[key_idx(
                            td.partition_data@,
                            info.partition.partition_key@,
                        )].1;
                        &&& pd.data_buffer.persisting is None
                        &&& fold_compat(pd.data_buffer.buffer@)
                        &&& snapv_compat(frozen_snaps_of(pd.data_buffer))
                        &&& snapv_rows_ok(frozen_snaps_of(pd.data_buffer))
                    }
                }
            }
        }),
{
    let ci = choose|i: int|
        0 <= i < c.partitions@.len() && (#[trigger] c.partitions@[i].id.0) == pid.0
            && info.partition.sequencer_id == c.partitions@[i].sequencer_id
            && info.partition.table_id == c.partitions@[i].table_id
            && info.partition.partition_key@ == c.partitions@[i].partition_key@;
    let (nj, tj): (int, int) = choose|i: int, j: int|
        0 <= i < c.namespaces@.len() && 0 <= j < c.tables@.len() && (#[trigger] c.tables@[j].id.0)
            == info.partition.table_id.0 && info.table_name@ == c.tables@[j].name@ && (
        #[trigger] c.namespaces@[i].id.0) == c.tables@[j].namespace_id.0 && info.namespace_name@
            == c.namespaces@[i].name@;
    assert(tree_resolves(t, c.partitions@[ci], c.tables@[tj].name@, c.namespaces@[nj].name@));
    assert(c.partitions@[ci].sequencer_id == info.partition.sequencer_id);
    assert(c.partitions@[ci].partition_key@ == info.partition.partition_key@);
}

impl IngesterData {
    /// Persists one partition: freezes its buffered data, merges and
    /// time-filters it, writes the result durably, commits the file
    /// record and applied tombstones to the catalog, and releases the
    /// partition's memory,
    /// removing it (and an emptied table) from the tree.  Transient
    /// catalog and object-store failures are retried until success, so a
    /// successful return means the data is durable; errors report
    /// inconsistencies between the catalog and the tree, or a persist
    /// cycle already in flight, and are never retried.
    #[verifier::loop_isolation(false)]
    #[verifier::rlimit(100)]
    pub fn persist(
        &mut self,
        partition_id: PartitionId,
        catalog: &mut Catalog,
        object_store: &mut ObjectStore,
    ) -> (r: Result<(), Error>)
        requires
            old(self).wf(),
            old(catalog).next_id < i64::MAX,
        ensures
            final(self).wf(),
            match r {
                Ok(_) => (final(catalog).parquet_files == old(catalog).parquet_files
                    && final(catalog).processed_tombstones == old(catalog).processed_tombstones
                    && final(object_store).files == old(object_store).files
                    && persist_nothing(*old(self), *final(self), *old(catalog), partition_id)) || (
                exists|rec: crate::catalog::ParquetFileRecord|
                    {
                        &&& #[trigger] final(catalog).parquet_files@ == old(
                            catalog,
                        ).parquet_files@.push(rec)
                        &&& rec.partition_id == partition_id
                        &&& !rec.to_delete
                        &&& rec.row_count > 0
                        &&& final(object_store).files@.len() == old(object_store).files@.len() + 1
                        &&& final(object_store).files@.drop_last() == old(object_store).files@
                        &&& final(object_store).files@.last().object_store_id
                            == rec.object_store_id
                        &&& final(object_store).files@.last().data.row_count == rec.row_count
                        &&& persist_effect(
                            *old(self),
                            *final(self),
                            *old(catalog),
                            *final(catalog),
                            rec,
                            final(object_store).files@.last().data,
                            partition_id,
                        )
                    }),
                Err(e) => {
                    &&& same_core(*old(catalog), *final(catalog))
                    &&& final(object_store).files == old(object_store).files
                    &&& (e is PartitionNotFound || e is SequencerNotFound || e
                        is NamespaceNotFound || e matches Error::TableNotFound { table_name } || e
                        is PersistingNotEmpty || e matches Error::Snapshot { source })
                    // each error names its condition
                    &&& ((e is SequencerNotFound || e is NamespaceNotFound || e matches
                        Error::TableNotFound { table_name } || e is PartitionNotFound)
                        ==> *final(self) == *old(self))
                    &&& (e is PersistingNotEmpty ==> persist_blocked(*old(self), true)
                        && same_tree(*old(self), *final(self)))
                    &&& (e matches Error::Snapshot { source } ==> persist_blocked(
                        *old(self),
                        false,
                    ) && (same_tree(*old(self), *final(self)) || tree_frozen_in_place(
                        *old(self),
                        *final(self),
                        partition_id,
                    )))
                    &&& (e matches Error::SequencerNotFound { sequencer_id: sid } ==> exists|
                        ci: int,
                    |
                        0 <= ci < old(catalog).partitions@.len() && (#[trigger] old(
                            catalog,
                        ).partitions@[ci].id.0) == partition_id.0 && old(
                            catalog,
                        ).partitions@[ci].sequencer_id == sid && !has_seq(
                            old(self).sequencers@,
                            sid.0,
                        ))
                    &&& (e is PartitionNotFound ==> !has_partition_id(
                        old(catalog).partitions@,
                        partition_id.0,
                    ) || (exists|ci: int|
                        0 <= ci < old(catalog).partitions@.len() && (#[trigger] old(
                            catalog,
                        ).partitions@[ci].id.0) == partition_id.0 && !has_table_id(
                            old(catalog).tables@,
                            old(catalog).partitions@[ci].table_id.0,
                        )) || (exists|ci: int, tj: int|
                        0 <= ci < old(catalog).partitions@.len() && 0 <= tj < old(
                            catalog,
                        ).tables@.len() && (#[trigger] old(catalog).partitions@[ci].id.0)
                            == partition_id.0 && (#[trigger] old(catalog).tables@[tj].id.0) == old(
                            catalog,
                        ).partitions@[ci].table_id.0 && !has_namespace_id(
                            old(catalog).namespaces@,
                            old(catalog).tables@[tj].namespace_id.0,
                        )) || (exists|ci: int|
                        0 <= ci < old(catalog).partitions@.len() && (#[trigger] old(
                            catalog,
                        ).partitions@[ci].id.0) == partition_id.0 && has_seq(
                            old(self).sequencers@,
                            old(catalog).partitions@[ci].sequencer_id.0,
                        )))
                },
            },
            // success is owed whenever the catalog and the tree agree on the
            // partition and its frozen content folds cleanly
            persist_ready(*old(self), *old(catalog), partition_id) ==> r is Ok,
    {
        // locate the partition in the catalog, retrying until it answers
        let info = match fetch_partition_info(catalog, partition_id) {
            Option::Some(info) => info,
            Option::None => {
                proof {
                    if persist_ready(*old(self), *old(catalog), partition_id) {
                        if !has_partition_id(old(catalog).partitions@, partition_id.0) {
                        } else if exists|i: int|
                            0 <= i < old(catalog).partitions@.len() && (#[trigger] old(
                                catalog,
                            ).partitions@[i].id.0) == partition_id.0 && !has_table_id(
                                old(catalog).tables@,
                                old(catalog).partitions@[i].table_id.0,
                            ) {
                            let i = choose|i: int|
                                0 <= i < old(catalog).partitions@.len() && (#[trigger] old(
                                    catalog,
                                ).partitions@[i].id.0) == partition_id.0 && !has_table_id(
                                    old(catalog).tables@,
                                    old(catalog).partitions@[i].table_id.0,
                                );
                            assert(has_table_id(
                                old(catalog).tables@,
                                old(catalog).partitions@[i].table_id.0,
                            ));
                        } else {
                            let (i, j): (int, int) = choose|i: int, j: int|
                                0 <= i < old(catalog).partitions@.len() && 0 <= j < old(
                                    catalog,
                                ).tables@.len() && (#[trigger] old(catalog).partitions@[i].id.0)
                                    == partition_id.0 && (#[trigger] old(
                                    catalog,
                                ).tables@[j].id.0) == old(catalog).partitions@[i].table_id.0
                                    && !has_namespace_id(
                                    old(catalog).namespaces@,
                                    old(catalog).tables@[j].namespace_id.0,
                                );
                            assert(has_namespace_id(
                                old(catalog).namespaces@,
                                old(catalog).tables@[j].namespace_id.0,
                            ));
                        }
                    }
                }
                return Err(Error::PartitionNotFound { partition_id });
            },
        };
        proof {
            if persist_ready(*old(self), *old(catalog), partition_id) {
                lemma_ready_resolves(*old(self), *old(catalog), partition_id, info);
            }
        }
        // resolve the in-memory state; absence is a fatal inconsistency
        let nsq = self.sequencers.len();
        let mut si: usize = 0;
        while si < nsq
            invariant
                si <= nsq,
                *self == *old(self),
                nsq == self.sequencers@.len(),
                forall|p: int|
                    0 <= p < si ==> (#[trigger] self.sequencers@[p].0.0)
                        != info.partition.sequencer_id.0,
            decreases nsq - si,
        {
            if self.sequencers[si].0.0 == info.partition.sequencer_id.0 {
                break ;
            }
            si += 1;
        }
        if si == nsq {
            proof {
                if has_seq(old(self).sequencers@, info.partition.sequencer_id.0) {
                    let w = choose|w: int|
                        0 <= w < old(self).sequencers@.len() && (#[trigger] old(
                            self,
                        ).sequencers@[w].0.0) == info.partition.sequencer_id.0;
                    assert(self.sequencers@[w].0.0 != info.partition.sequencer_id.0);
                }
            }
            return Err(Error::SequencerNotFound { sequencer_id: info.partition.sequencer_id });
        }
        proof {
            // the scanned entry is the one the lookup spec designates
            assert(self.sequencers@[si as int].0.0 == info.partition.sequencer_id.0);
            assert(seq_idx(old(self).sequencers@, info.partition.sequencer_id.0) == si as int) by {
                assert(has_seq(old(self).sequencers@, info.partition.sequencer_id.0));
                let j = seq_idx(old(self).sequencers@, info.partition.sequencer_id.0);
                if j < si as int {
                    assert(old(self).sequencers@[j].0.0 != old(
                        self,
                    ).sequencers@[si as int].0.0);
                } else if j > si as int {
                    assert(old(self).sequencers@[si as int].0.0 != old(self).sequencers@[j].0.0);
                }
            }
            assert(old(self).sequencers@[si as int].1.wf());
        }
        let ni = match find_key(&self.sequencers[si].1.namespaces, &info.namespace_name) {
            Option::Some(ni) => ni,
            Option::None => {
                return Err(Error::NamespaceNotFound { namespace: info.namespace_name });
            },
        };
        proof {
            lemma_key_idx(self.sequencers@[si as int].1.namespaces@, ni as int);
            assert(self.sequencers@[si as int].1.namespaces@[ni as int].1.wf());
        }
        let ti = match find_key(&self.sequencers[si].1.namespaces[ni].1.tables, &info.table_name) {
            Option::Some(ti) => ti,
            Option::None => {
                return Err(Error::TableNotFound { table_name: info.table_name });
            },
        };
        proof {
            lemma_key_idx(self.sequencers@[si as int].1.namespaces@[ni as int].1.tables@, ti as int);
            assert(self.sequencers@[si as int].1.namespaces@[ni as int].1.tables@[
            ti as int].1.wf());
        }
        let pi = match find_key(
            &self.sequencers[si].1.namespaces[ni].1.tables[ti].1.partition_data,
            &info.partition.partition_key,
        ) {
            Option::Some(pi) => pi,
            Option::None => {
                return Err(Error::PartitionNotFound { partition_id });
            },
        };
        proof {
            lemma_key_idx(
                self.sequencers@[si as int].1.namespaces@[ni as int].1.tables@[
                ti as int].1.partition_data@,
                pi as int,
            );
        }
        let table_id = self.sequencers[si].1.namespaces[ni].1.tables[ti].1.table_id;
        // freeze: snapshot remaining writes and move everything into one
        // persisting batch
        let ghost tree0 = *self;
        let ghost pd0 = tree0.sequencers@[si as int].1.namespaces@[ni as int].1.tables@[
        ti as int].1.partition_data@[pi as int].1;
        proof {
            assert(tree0 == *old(self));
            assert(self.sequencers@[si as int].1.wf());
            assert(self.sequencers@[si as int].1.namespaces@[ni as int].1.wf());
            assert(self.sequencers@[si as int].1.namespaces@[ni as int].1.tables@[ti as int].1.wf());
            assert(pd0.wf());
        }
        match self.sequencers[si].1.namespaces[ni].1.tables[ti].1.partition_data[pi].1
            .snapshot_to_persisting_batch(
            info.partition.sequencer_id,
            table_id,
            partition_id,
            &info.table_name,
        ) {
            Ok(_) => {},
            Err(e) => {
                proof {
                    lemma_tree_entry_update(tree0, *self, si as int, ni as int, ti as int, pi as int);
                    if e is PersistingNotEmpty {
                        assert(pd0.data_buffer.persisting is Some);
                        assert(persist_blocked(*old(self), true));
                    } else {
                        assert(!fold_compat(pd0.data_buffer.buffer@));
                        assert(persist_blocked(*old(self), false));
                    }
                }
                return Err(e);
            },
        }
        proof {
            lemma_tree_entry_update(tree0, *self, si as int, ni as int, ti as int, pi as int);
        }
        let ghost frozen = frozen_snaps_of(pd0.data_buffer);
        // compact: merge, apply tombstones, compute file statistics
        let pd_ref = &self.sequencers[si].1.namespaces[ni].1.tables[ti].1.partition_data[pi].1;
        let (object_store_id, compacted, file, q_snaps_g) = match &pd_ref.data_buffer.persisting {
            Option::Some(p) => {
                let compacted = match compact(&p.data) {
                    Ok(Option::Some(c)) => c,
                    Ok(Option::None) => {
                        // nothing survives: no file, no catalog record; the
                        // persisting stage stays for the caller to clear
                        proof {
                            lemma_snaps_view(p.data.data@);
                            assert(snaps_v(p.data.data@) == frozen);
                            assert(tombs_v(p.data.deletes@) == tombs_v(pd0.data_buffer.deletes@));
                            let pd = self.sequencers@[si as int].1.namespaces@[ni as int].1.tables@[
                            ti as int].1.partition_data@[pi as int].1;
                            assert(pd.data_buffer.persisting is Some
                                && pd.data_buffer.persisting.unwrap().partition_id == partition_id
                                && pd.data_buffer.buffer@.len() == 0
                                && pd.data_buffer.snapshots@.len() == 0);
                            assert(persist_nothing(*old(self), *self, *old(catalog), partition_id));
                        }
                        return Ok(());
                    },
                    Err(source) => {
                        proof {
                            lemma_snaps_view(p.data.data@);
                            assert(snaps_v(p.data.data@) == frozen);
                            assert(!snapv_compat(frozen) || !snapv_rows_ok(frozen));
                            assert(persist_blocked(*old(self), false));
                        }
                        return Err(Error::Snapshot { source });
                    },
                };
                let file = ParquetFileParams {
                    sequencer_id: info.partition.sequencer_id,
                    table_id,
                    partition_id,
                    object_store_id: p.object_store_id,
                    min_sequence_number: SequenceNumber::new(compacted.min_sequence_number),
                    max_sequence_number: SequenceNumber::new(compacted.max_sequence_number),
                    min_time: Timestamp::new(compacted.min_time),
                    max_time: Timestamp::new(compacted.max_time),
                    row_count: compacted.row_count,
                };
                (p.object_store_id, compacted, file, Ghost(p.data.data@))
            },
            Option::None => {
                return Err(Error::PersistingEmpty);
            },
        };
        let ghost q_snaps = q_snaps_g@;
        // durable file write, retried until it lands
        store_compacted(object_store, object_store_id, &compacted.data);
        // catalog commit, the single durability boundary, retried whole
        let pd_ref = &self.sequencers[si].1.namespaces[ni].1.tables[ti].1.partition_data[pi].1;
        let ghost q_dels: Seq<Tombstone>;
        match &pd_ref.data_buffer.persisting {
            Option::Some(p) => {
                proof {
                    q_dels = p.data.deletes@;
                }
                commit_file(catalog, &file, &p.data.deletes);
            },
            Option::None => {
                return Err(Error::PersistingEmpty);
            },
        }
        let ghost q_dels_pairs = q_dels.map(
            |q: int, t: Tombstone| (catalog.parquet_files@.last().id, t.id),
        );
        // release the persisted memory
        let ghost tree1 = *self;
        let ghost cat_before_mark = *catalog;
        self.sequencers[si].1.namespaces[ni].1.mark_persisted_and_remove_if_empty(
            &info.table_name,
            &info.partition.partition_key,
        );
        proof {
            let rec = catalog.parquet_files@.last();
            assert(catalog.parquet_files@ =~= old(catalog).parquet_files@.push(rec));
            assert(object_store.files@.last().data.row_count == rec.row_count);
            assert(rec.row_count > 0);
            // the record's statistics are those of the frozen content
            lemma_snaps_view(q_snaps);
            assert(snaps_v(q_snaps) == frozen);
            lemma_time_model(compacted.data);
            assert(rec.min_sequence_number.0 == snapv_min_seq(frozen));
            assert(rec.max_sequence_number.0 == snapv_max_seq(frozen));
            let fm = filter_model(fold_snapv(frozen), tombs_v(pd0.data_buffer.deletes@));
            assert(compacted.data@ == fm);
            assert(rec.min_time.0 == time_or_zero(model_min_time(fm)));
            assert(rec.max_time.0 == time_or_zero(model_max_time(fm)));
            assert(rec.row_count == fm.rows);
            assert(rec.sequencer_id == tree0.sequencers@[si as int].0) by {
                assert(tree0.sequencers@[si as int].0.0 == info.partition.sequencer_id.0);
            }
            assert(rec.table_id == tree0.sequencers@[si as int].1.namespaces@[ni as int].1.tables@[
            ti as int].1.table_id);
            // applied tombstones are linked to the record
            assert(catalog.processed_tombstones@ == old(catalog).processed_tombstones@
                + pd0.data_buffer.deletes@.map(|q: int, t: Tombstone| (rec.id, t.id))) by {
                assert(tombs_v(q_dels).len() == tombs_v(pd0.data_buffer.deletes@).len());
                assert forall|w: int| 0 <= w < q_dels.len() implies (#[trigger] q_dels_pairs[w])
                    == pd0.data_buffer.deletes@.map(|q: int, t: Tombstone| (rec.id, t.id))[w] by {
                    assert(tombs_v(q_dels)[w] == tombs_v(pd0.data_buffer.deletes@)[w]);
                    assert(crate::delete::tomb_v(q_dels[w]) == crate::delete::tomb_v(
                        pd0.data_buffer.deletes@[w],
                    ));
                    assert(q_dels[w].id.0 == pd0.data_buffer.deletes@[w].id.0);
                    assert(q_dels[w].id == pd0.data_buffer.deletes@[w].id);
                }
                assert(q_dels_pairs =~= pd0.data_buffer.deletes@.map(
                    |q: int, t: Tombstone| (rec.id, t.id),
                ));
            }
            // the tree: freeze then release
            assert(freeze_mid(
                tree0.sequencers@[si as int].1.namespaces@[ni as int].1.tables@,
                tree1.sequencers@[si as int].1.namespaces@[ni as int].1.tables@,
                ti as int,
                pi as int,
            ));
            let mid = tree1.sequencers@[si as int].1.namespaces@[ni as int].1.tables@;
            assert(has_key(mid, info.table_name@)) by {
                assert(mid[ti as int].0@ == info.table_name@);
            }
            assert(crate::data::key_idx(mid, info.table_name@) == ti as int) by {
                crate::data::lemma_key_idx(mid, ti as int);
            }
            assert(mark_persisted_effect(
                mid,
                self.sequencers@[si as int].1.namespaces@[ni as int].1.tables@,
                mid[ti as int].0@,
                mid[ti as int].1.partition_data@[pi as int].0@,
            )) by {
                assert(mid[ti as int].0@ == info.table_name@);
                assert(mid[ti as int].1.partition_data@[pi as int].0@
                    == info.partition.partition_key@);
            }
            assert(persist_effect(
                *old(self),
                *self,
                *old(catalog),
                *catalog,
                rec,
                object_store.files@.last().data,
                partition_id,
            ));
            let s1 = self.sequencers@;
            assert forall|p: int, q: int|
                0 <= p < q < s1.len() implies (#[trigger] s1[p].0.0) != (#[trigger] s1[q].0.0) by {
                if p != si as int {
                    assert(s1[p] == tree1.sequencers@[p]);
                }
                if q != si as int {
                    assert(s1[q] == tree1.sequencers@[q]);
                }
                assert(tree1.sequencers@[p].0.0 != tree1.sequencers@[q].0.0);
            }
            assert forall|j: int| 0 <= j < s1.len() implies (#[trigger] s1[j].1).wf() by {
                if j != si as int {
                    assert(s1[j] == tree1.sequencers@[j]);
                } else {
                    let n1 = s1[j].1.namespaces@;
                    assert forall|p: int, q: int|
                        0 <= p < q < n1.len() implies (#[trigger] n1[p].0@) != (
                    #[trigger] n1[q].0@) by {
                        if p != ni as int {
                            assert(n1[p] == tree1.sequencers@[j].1.namespaces@[p]);
                        }
                        if q != ni as int {
                            assert(n1[q] == tree1.sequencers@[j].1.namespaces@[q]);
                        }
                        assert(tree1.sequencers@[j].1.namespaces@[p].0@
                            != tree1.sequencers@[j].1.namespaces@[q].0@);
                    }
                    assert forall|p: int| 0 <= p < n1.len() implies (#[trigger] n1[p].1).wf() by {
                        if p != ni as int {
                            assert(n1[p] == tree1.sequencers@[j].1.namespaces@[p]);
                        }
                    }
                }
            }
        }
        Ok(())
    }
}

/// After an update of one partition's buffer, every level of the tree is
/// still well-formed and every other entry is untouched.
proof fn lemma_tree_entry_update(t0: IngesterData, t1: IngesterData, si: int, ni: int, ti: int, pi: int)
    requires
        t0.wf(),
        0 <= si < t0.sequencers@.len(),
        t1.sequencers@.len() == t0.sequencers@.len(),
        forall|p: int|
            0 <= p < t0.sequencers@.len() && p != si ==> (#[trigger] t1.sequencers@[p])
                == t0.sequencers@[p],
        t1.sequencers@[si].0 == t0.sequencers@[si].0,
        0 <= ni < t0.sequencers@[si].1.namespaces@.len(),
        t1.sequencers@[si].1.namespaces@.len() == t0.sequencers@[si].1.namespaces@.len(),
        forall|p: int|
            0 <= p < t0.sequencers@[si].1.namespaces@.len() && p != ni ==> (
            #[trigger] t1.sequencers@[si].1.namespaces@[p]) == t0.sequencers@[si].1.namespaces@[p],
        t1.sequencers@[si].1.namespaces@[ni].0 == t0.sequencers@[si].1.namespaces@[ni].0,
        t1.sequencers@[si].1.namespaces@[ni].1.namespace_id == t0.sequencers@[
        si].1.namespaces@[ni].1.namespace_id,
        0 <= ti < t0.sequencers@[si].1.namespaces@[ni].1.tables@.len(),
        t1.sequencers@[si].1.namespaces@[ni].1.tables@.len() == t0.sequencers@[
        si].1.namespaces@[ni].1.tables@.len(),
        forall|p: int|
            0 <= p < t0.sequencers@[si].1.namespaces@[ni].1.tables@.len() && p != ti ==> (
            #[trigger] t1.sequencers@[si].1.namespaces@[ni].1.tables@[p]) == t0.sequencers@[
            si].1.namespaces@[ni].1.tables@[p],
        t1.sequencers@[si].1.namespaces@[ni].1.tables@[ti].0 == t0.sequencers@[
        si].1.namespaces@[ni].1.tables@[ti].0,
        t1.sequencers@[si].1.namespaces@[ni].1.tables@[ti].1.table_id == t0.sequencers@[
        si].1.namespaces@[ni].1.tables@[ti].1.table_id,
        0 <= pi < t0.sequencers@[si].1.namespaces@[ni].1.tables@[ti].1.partition_data@.len(),
        t1.sequencers@[si].1.namespaces@[ni].1.tables@[ti].1.partition_data@.len()
            == t0.sequencers@[si].1.namespaces@[ni].1.tables@[ti].1.partition_data@.len(),
        forall|p: int|
            0 <= p < t0.sequencers@[si].1.namespaces@[ni].1.tables@[ti].1.partition_data@.len()
                && p != pi ==> (
            #[trigger] t1.sequencers@[si].1.namespaces@[ni].1.tables@[ti].1.partition_data@[p])
                == t0.sequencers@[si].1.namespaces@[ni].1.tables@[ti].1.partition_data@[p],
        t1.sequencers@[si].1.namespaces@[ni].1.tables@[ti].1.partition_data@[pi].0
            == t0.sequencers@[si].1.namespaces@[ni].1.tables@[ti].1.partition_data@[pi].0,
        t1.sequencers@[si].1.namespaces@[ni].1.tables@[ti].1.partition_data@[pi].1.wf(),
    ensures
        t1.wf(),
{
    let s0 = t0.sequencers@;
    let s1 = t1.sequencers@;
    assert forall|p: int, q: int|
        0 <= p < q < s1.len() implies (#[trigger] s1[p].0.0) != (#[trigger] s1[q].0.0) by {
        if p != si {
            assert(s1[p] == s0[p]);
        }
        if q != si {
            assert(s1[q] == s0[q]);
        }
        assert(s0[p].0.0 != s0[q].0.0);
    }
    assert forall|j: int| 0 <= j < s1.len() implies (#[trigger] s1[j].1).wf() by {
        if j != si {
            assert(s1[j] == s0[j]);
        } else {
            let n0 = s0[si].1.namespaces@;
            let n1 = s1[si].1.namespaces@;
            assert(s0[si].1.wf());
            assert forall|p: int, q: int|
                0 <= p < q < n1.len() implies (#[trigger] n1[p].0@) != (#[trigger] n1[q].0@) by {
                if p != ni {
                    assert(n1[p] == n0[p]);
                }
                if q != ni {
                    assert(n1[q] == n0[q]);
                }
                assert(n0[p].0@ != n0[q].0@);
            }
            assert forall|jj: int| 0 <= jj < n1.len() implies (#[trigger] n1[jj].1).wf() by {
                if jj != ni {
                    assert(n1[jj] == n0[jj]);
                } else {
                    let tb0 = n0[ni].1.tables@;
                    let tb1 = n1[ni].1.tables@;
                    assert(n0[ni].1.wf());
                    assert forall|p: int, q: int|
                        0 <= p < q < tb1.len() implies (#[trigger] tb1[p].0@) != (
                    #[trigger] tb1[q].0@) by {
                        if p != ti {
                            assert(tb1[p] == tb0[p]);
                        }
                        if q != ti {
                            assert(tb1[q] == tb0[q]);
                        }
                        assert(tb0[p].0@ != tb0[q].0@);
                    }
                    assert forall|jt: int| 0 <= jt < tb1.len() implies (
                    #[trigger] tb1[jt].1).wf() by {
                        if jt != ti {
                            assert(tb1[jt] == tb0[jt]);
                        } else {
                            let pd0 = tb0[ti].1.partition_data@;
                            let pd1 = tb1[ti].1.partition_data@;
                            assert(tb0[ti].1.wf());
                            assert forall|p: int, q: int|
                                0 <= p < q < pd1.len() implies (#[trigger] pd1[p].0@) != (
                            #[trigger] pd1[q].0@) by {
                                if p != pi {
                                    assert(pd1[p] == pd0[p]);
                                }
                                if q != pi {
                                    assert(pd1[q] == pd0[q]);
                                }
                                assert(pd0[p].0@ != pd0[q].0@);
                            }
                            assert forall|jp: int| 0 <= jp < pd1.len() implies (
                            #[trigger] pd1[jp].1).wf() by {
                                if jp != pi {
                                    assert(pd1[jp] == pd0[jp]);
                                }
                            }
                        }
                    }
                }
            }
        }
    }
}

} // verus!