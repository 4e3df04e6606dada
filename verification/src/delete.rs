//! Delete predicates and tombstones.
//!
//! A delete names a time range and a conjunction of column comparisons.
//! Once recorded durably in the catalog it becomes a [`Tombstone`], which
//! is broadcast into the in-memory buffers of the affected partitions and
//! applied as a filter at compaction time.

use crate::types::SequenceNumber;
use crate::types::SequencerId;
use crate::types::TableId;
use crate::types::Timestamp;
use crate::types::TombstoneId;
use vstd::prelude::*;

verus! {

/// A comparison operator of a delete expression.
#[derive(Debug, Clone, Copy, PartialEq, Eq, Structural)]
pub enum DeleteOp {
    Eq,
    Ne,
}

/// A literal a delete expression compares a column against.
/// Floats are carried as their IEEE-754 bit patterns.
#[derive(Debug, Clone, PartialEq)]
pub enum DeleteScalar {
    Bool(bool),
    I64(i64),
    F64Bits(u64),
    Str(String),
}

/// One column comparison of a delete predicate.
#[derive(Debug, Clone, PartialEq)]
pub struct DeleteExpr {
    pub column: String,
    pub op: DeleteOp,
    pub scalar: DeleteScalar,
}

/// An inclusive nanosecond time range.
#[derive(Debug, Clone, Copy, PartialEq, Eq, Structural)]
pub struct TimestampRange {
    pub start: i64,
    pub end: i64,
}

impl TimestampRange {
    pub fn start(&self) -> (r: i64)
        ensures
            r == self.start,
    {
        self.start
    }

    pub fn end(&self) -> (r: i64)
        ensures
            r == self.end,
    {
        self.end
    }
}

/// What a delete asks for: rows within a time range matching every listed
/// column comparison.
#[derive(Debug, Clone, PartialEq)]
pub struct DeletePredicate {
    pub range: TimestampRange,
    pub exprs: Vec<DeleteExpr>,
}

/// Model of a delete scalar: string contents by view.
pub enum ScalarV {
    Bool(bool),
    I64(i64),
    F64Bits(u64),
    Str(Seq<char>),
}

/// Model of one delete expression.
pub struct ExprV {
    pub column: Seq<char>,
    pub op: DeleteOp,
    pub scalar: ScalarV,
}

/// Model of a delete predicate.
pub struct PredV {
    pub start: i64,
    pub end: i64,
    pub exprs: Seq<ExprV>,
}

pub open spec fn scalar_v(s: DeleteScalar) -> ScalarV {
    match s {
        DeleteScalar::Bool(b) => ScalarV::Bool(b),
        DeleteScalar::I64(v) => ScalarV::I64(v),
        DeleteScalar::F64Bits(v) => ScalarV::F64Bits(v),
        DeleteScalar::Str(t) => ScalarV::Str(t@),
    }
}

pub open spec fn expr_v(e: DeleteExpr) -> ExprV {
    ExprV { column: e.column@, op: e.op, scalar: scalar_v(e.scalar) }
}

pub open spec fn pred_v(p: DeletePredicate) -> PredV {
    PredV {
        start: p.range.start,
        end: p.range.end,
        exprs: p.exprs@.map(|i: int, e: DeleteExpr| expr_v(e)),
    }
}

/// A delete predicate already recorded durably in the catalog, identified
/// there and scoped to one table and one point of one sequencer's stream.
#[derive(Debug, Clone, PartialEq)]
pub struct Tombstone {
    pub id: TombstoneId,
    pub table_id: TableId,
    pub sequencer_id: SequencerId,
    pub sequence_number: SequenceNumber,
    pub min_time: Timestamp,
    pub max_time: Timestamp,
    pub predicate: DeletePredicate,
}

/// Model of a tombstone.
pub struct TombV {
    pub id: i64,
    pub table_id: i64,
    pub sequencer_id: i16,
    pub sequence_number: i64,
    pub min_time: i64,
    pub max_time: i64,
    pub predicate: PredV,
}

pub open spec fn tomb_v(t: Tombstone) -> TombV {
    TombV {
        id: t.id.0,
        table_id: t.table_id.0,
        sequencer_id: t.sequencer_id.0,
        sequence_number: t.sequence_number.0,
        min_time: t.min_time.0,
        max_time: t.max_time.0,
        predicate: pred_v(t.predicate),
    }
}

/// The models of a sequence of tombstones.
pub open spec fn tombs_v(s: Seq<Tombstone>) -> Seq<TombV> {
    s.map(|i: int, t: Tombstone| tomb_v(t))
}

/// Copies one delete expression.
pub fn clone_expr(e: &DeleteExpr) -> (r: DeleteExpr)
    ensures
        expr_v(r) == expr_v(*e),
{
    let scalar = match &e.scalar {
        DeleteScalar::Bool(b) => DeleteScalar::Bool(*b),
        DeleteScalar::I64(v) => DeleteScalar::I64(*v),
        DeleteScalar::F64Bits(v) => DeleteScalar::F64Bits(*v),
        DeleteScalar::Str(t) => DeleteScalar::Str(t.clone()),
    };
    DeleteExpr { column: e.column.clone(), op: e.op, scalar }
}

/// Copies a delete predicate.
#[verifier::loop_isolation(false)]
pub fn clone_predicate(p: &DeletePredicate) -> (r: DeletePredicate)
    ensures
        pred_v(r) == pred_v(*p),
{
    let mut exprs: Vec<DeleteExpr> = Vec::new();
    let mut i: usize = 0;
    while i < p.exprs.len()
        invariant
            i <= p.exprs@.len(),
            exprs@.len() == i,
            forall|k: int| 0 <= k < i ==> expr_v(#[trigger] exprs@[k]) == expr_v(p.exprs@[k]),
        decreases p.exprs@.len() - i,
    {
        let e = clone_expr(&p.exprs[i]);
        exprs.push(e);
        i += 1;
    }
    let r = DeletePredicate { range: p.range, exprs };
    proof {
        assert(pred_v(r).exprs =~= pred_v(*p).exprs);
    }
    r
}

/// Copies a tombstone.
pub fn clone_tombstone(t: &Tombstone) -> (r: Tombstone)
    ensures
        tomb_v(r) == tomb_v(*t),
{
    Tombstone {
        id: t.id,
        table_id: t.table_id,
        sequencer_id: t.sequencer_id,
        sequence_number: t.sequence_number,
        min_time: t.min_time,
        max_time: t.max_time,
        predicate: clone_predicate(&t.predicate),
    }
}


/// Compares two delete scalars by value, strings by their contents.
fn scalar_eq(a: &DeleteScalar, b: &DeleteScalar) -> (r: bool)
    ensures
        r == (scalar_v(*a) == scalar_v(*b)),
{
    match (a, b) {
        (DeleteScalar::Bool(x), DeleteScalar::Bool(y)) => *x == *y,
        (DeleteScalar::I64(x), DeleteScalar::I64(y)) => *x == *y,
        (DeleteScalar::F64Bits(x), DeleteScalar::F64Bits(y)) => *x == *y,
        (DeleteScalar::Str(x), DeleteScalar::Str(y)) => *x == *y,
        _ => false,
    }
}

/// Compares two delete predicates by value.
#[verifier::loop_isolation(false)]
pub fn predicate_eq(a: &DeletePredicate, b: &DeletePredicate) -> (r: bool)
    ensures
        r == (pred_v(*a) == pred_v(*b)),
{
    if !(a.range == b.range) || a.exprs.len() != b.exprs.len() {
        proof {
            if pred_v(*a) == pred_v(*b) {
                assert(pred_v(*a).exprs.len() == pred_v(*b).exprs.len());
            }
        }
        return false;
    }
    let mut i: usize = 0;
    while i < a.exprs.len()
        invariant
            i <= a.exprs@.len(),
            a.exprs@.len() == b.exprs@.len(),
            forall|p: int| 0 <= p < i ==> expr_v(#[trigger] a.exprs@[p]) == expr_v(b.exprs@[p]),
        decreases a.exprs@.len() - i,
    {
        let ea = &a.exprs[i];
        let eb = &b.exprs[i];
        if !(ea.column == eb.column) || !(ea.op == eb.op) || !scalar_eq(&ea.scalar, &eb.scalar) {
            proof {
                if pred_v(*a) == pred_v(*b) {
                    assert(pred_v(*a).exprs[i as int] == pred_v(*b).exprs[i as int]);
                }
            }
            return false;
        }
        i += 1;
    }
    proof {
        assert(pred_v(*a).exprs =~= pred_v(*b).exprs);
    }
    true
}

/// Compares two tombstones by value.
pub fn tombstone_eq(a: &Tombstone, b: &Tombstone) -> (r: bool)
    ensures
        r == (tomb_v(*a) == tomb_v(*b)),
{
    a.id.0 == b.id.0 && a.table_id.0 == b.table_id.0 && a.sequencer_id.0 == b.sequencer_id.0
        && a.sequence_number.0 == b.sequence_number.0 && a.min_time.0 == b.min_time.0
        && a.max_time.0 == b.max_time.0 && predicate_eq(&a.predicate, &b.predicate)
}

} // verus!