//! Reading the buffer: column projection, accounting size, and the
//! time-column minimum of a batch.

use crate::batch::Batch;
use crate::batch::Cell;
use crate::batch::ColType;
use crate::batch::ColV;
use crate::batch::Column;
use crate::batch::col_idx;
use crate::batch::col_v;
use crate::batch::find_col;
use crate::batch::has_col;
use crate::batch::lemma_col_idx;
use crate::batch::push_cloned_cells;
use vstd::prelude::*;

verus! {

/// A column subset request: everything, or a list of column names.
#[derive(Debug, Clone, PartialEq)]
pub enum Selection {
    All,
    Cols(Vec<String>),
}

/// The columns of `cols` whose names appear in `sel`, in `sel`'s order;
/// names without a matching column contribute nothing.
pub open spec fn project_cols(cols: Seq<Column>, sel: Seq<Seq<char>>) -> Seq<Column>
    decreases sel.len(),
{
    if sel.len() == 0 {
        Seq::empty()
    } else {
        let rest = project_cols(cols, sel.drop_last());
        if has_col(cols, sel.last()) {
            rest.push(cols[col_idx(cols, sel.last())])
        } else {
            rest
        }
    }
}

/// Whether `a` and `b` hold the same columns, in the same order, with the
/// same names, types and cells.
pub open spec fn cols_like(a: Seq<Column>, b: Seq<Column>) -> bool {
    &&& a.len() == b.len()
    &&& forall|i: int|
        0 <= i < a.len() ==> (#[trigger] a[i].name@) == b[i].name@ && col_v(a[i]) == col_v(b[i])
}

/// The views of a sequence of column names.
pub open spec fn names_v(sel: Seq<String>) -> Seq<Seq<char>> {
    sel.map(|i: int, s: String| s@)
}

/// Copies one column.
pub fn clone_column(c: &Column) -> (r: Column)
    ensures
        r.name@ == c.name@,
        col_v(r) == col_v(*c),
{
    let mut cells: Vec<Cell> = Vec::new();
    push_cloned_cells(&mut cells, &c.cells);
    Column { name: c.name.clone(), typ: c.typ, cells }
}

impl Batch {
    /// Restricts the batch to the requested columns, keeping their values
    /// unchanged and following the request's order.  Returns `None`, rather
    /// than an empty batch, when none of the requested names matches.
    #[verifier::loop_isolation(false)]
    pub fn project(&self, selection: &Vec<String>) -> (r: Option<Batch>)
        requires
            self.wf(),
        ensures
            match r {
                Option::Some(b) => {
                    &&& b.row_count == self.row_count
                    &&& cols_like(b.columns@, project_cols(self.columns@, names_v(selection@)))
                    &&& b.columns@.len() > 0
                },
                Option::None => project_cols(self.columns@, names_v(selection@)).len() == 0,
            },
    {
        let mut picked: Vec<Column> = Vec::new();
        let mut k: usize = 0;
        while k < selection.len()
            invariant
                k <= selection@.len(),
                cols_like(picked@, project_cols(self.columns@, names_v(selection@).take(k as int))),
            decreases selection@.len() - k,
        {
            proof {
                assert(names_v(selection@).take(k as int + 1).drop_last() =~= names_v(
                    selection@,
                ).take(k as int));
            }
            match find_col(&self.columns, &selection[k]) {
                Option::Some(i) => {
                    let c = clone_column(&self.columns[i]);
                    picked.push(c);
                    proof {
                        let sel_k = names_v(selection@).take(k as int + 1).last();
                        assert(sel_k == selection@[k as int]@);
                        lemma_col_idx(self.columns@, i as int);
                        assert(col_idx(self.columns@, sel_k) == i as int);
                    }
                },
                Option::None => {
                    proof {
                        assert(!has_col(self.columns@, names_v(selection@).take(k as int + 1).last()));
                    }
                },
            }
            k += 1;
        }
        proof {
            assert(names_v(selection@).take(selection@.len() as int) =~= names_v(selection@));
        }
        if picked.len() == 0 {
            Option::None
        } else {
            Option::Some(Batch { row_count: self.row_count, columns: picked })
        }
    }
}

/// A flat accounting weight for one cell: fixed-width values count their
/// width, nulls and booleans one byte, string payloads a flat eight bytes.
pub open spec fn cell_size(c: Cell) -> int {
    match c {
        Cell::Null => 1,
        Cell::I64(_) => 8,
        Cell::U64(_) => 8,
        Cell::F64Bits(_) => 8,
        Cell::Bool(_) => 1,
        Cell::Str(_) => 8,
        Cell::Tag(_) => 8,
    }
}

/// The accounting weight of a sequence of cells.
pub open spec fn cells_size(s: Seq<Cell>) -> int
    decreases s.len(),
{
    if s.len() == 0 {
        0
    } else {
        cells_size(s.drop_last()) + cell_size(s.last())
    }
}

/// The accounting weight of a sequence of columns: a flat sixteen bytes of
/// overhead per column plus its cells.
pub open spec fn columns_size(s: Seq<Column>) -> int
    decreases s.len(),
{
    if s.len() == 0 {
        0
    } else {
        columns_size(s.drop_last()) + 16 + cells_size(s.last().cells@)
    }
}

pub proof fn lemma_cells_size_nonneg(s: Seq<Cell>)
    ensures
        cells_size(s) >= 0,
    decreases s.len(),
{
    if s.len() > 0 {
        lemma_cells_size_nonneg(s.drop_last());
    }
}

pub proof fn lemma_columns_size_nonneg(s: Seq<Column>)
    ensures
        columns_size(s) >= 0,
    decreases s.len(),
{
    if s.len() > 0 {
        lemma_columns_size_nonneg(s.drop_last());
        lemma_cells_size_nonneg(s.last().cells@);
    }
}

/// The accounting weight of `cells`, capped at `usize::MAX`.
#[verifier::loop_isolation(false)]
fn cells_size_exec(cells: &Vec<Cell>) -> (r: usize)
    ensures
        r == if cells_size(cells@) > usize::MAX {
            usize::MAX as int
        } else {
            cells_size(cells@)
        },
{
    let mut acc: usize = 0;
    let mut i: usize = 0;
    while i < cells.len()
        invariant
            i <= cells@.len(),
            acc == if cells_size(cells@.take(i as int)) > usize::MAX {
                usize::MAX as int
            } else {
                cells_size(cells@.take(i as int))
            },
        decreases cells@.len() - i,
    {
        proof {
            assert(cells@.take(i as int + 1).drop_last() =~= cells@.take(i as int));
            lemma_cells_size_nonneg(cells@.take(i as int));
        }
        let w: usize = match &cells[i] {
            Cell::Null => 1,
            Cell::I64(_) => 8,
            Cell::U64(_) => 8,
            Cell::F64Bits(_) => 8,
            Cell::Bool(_) => 1,
            Cell::Str(_) => 8,
            Cell::Tag(_) => 8,
        };
        acc = acc.saturating_add(w);
        i += 1;
    }
    proof {
        assert(cells@.take(cells@.len() as int) =~= cells@);
    }
    acc
}

impl Batch {
    /// The batch's accounting weight, for admission control, capped at
    /// `usize::MAX`.
    #[verifier::loop_isolation(false)]
    pub fn size(&self) -> (r: usize)
        ensures
            r == if columns_size(self.columns@) > usize::MAX {
                usize::MAX as int
            } else {
                columns_size(self.columns@)
            },
    {
        let mut acc: usize = 0;
        let mut i: usize = 0;
        while i < self.columns.len()
            invariant
                i <= self.columns@.len(),
                acc == if columns_size(self.columns@.take(i as int)) > usize::MAX {
                    usize::MAX as int
                } else {
                    columns_size(self.columns@.take(i as int))
                },
            decreases self.columns@.len() - i,
        {
            proof {
                assert(self.columns@.take(i as int + 1).drop_last() =~= self.columns@.take(
                    i as int,
                ));
                lemma_columns_size_nonneg(self.columns@.take(i as int));
                lemma_cells_size_nonneg(self.columns@[i as int].cells@);
            }
            let w = cells_size_exec(&self.columns[i].cells);
            acc = acc.saturating_add(16).saturating_add(w);
            i += 1;
        }
        proof {
            assert(self.columns@.take(self.columns@.len() as int) =~= self.columns@);
        }
        acc
    }
}

/// The least value among the `I64` cells of `s`, if any.
pub open spec fn min_i64(s: Seq<Cell>) -> Option<i64>
    decreases s.len(),
{
    if s.len() == 0 {
        Option::None
    } else {
        let rest = min_i64(s.drop_last());
        match s.last() {
            Cell::I64(v) => match rest {
                Option::None => Option::Some(v),
                Option::Some(m) => Option::Some(if v < m {
                    v
                } else {
                    m
                }),
            },
            _ => rest,
        }
    }
}

/// The least timestamp of a batch: the minimum over the non-null cells of
/// its `time` column, provided that column exists and holds `I64` values.
pub open spec fn batch_min_time(b: Batch) -> Option<i64> {
    if has_col(b.columns@, "time"@) && b.columns@[col_idx(b.columns@, "time"@)].typ is I64 {
        min_i64(b.columns@[col_idx(b.columns@, "time"@)].cells@)
    } else {
        Option::None
    }
}

impl Batch {
    /// The minimum value of the batch's `time` column; `None` when the
    /// column is absent, of another type, or entirely null.
    #[verifier::loop_isolation(false)]
    pub fn min_time(&self) -> (r: Option<i64>)
        requires
            self.wf(),
        ensures
            r == batch_min_time(*self),
    {
        let time_name: String = "time".to_owned();
        match find_col(&self.columns, &time_name) {
            Option::None => Option::None,
            Option::Some(i) => {
                proof {
                    assert(has_col(self.columns@, "time"@));
                    lemma_col_idx(self.columns@, i as int);
                }
                let c = &self.columns[i];
                if !(c.typ == ColType::I64) {
                    return Option::None;
                }
                let mut best: Option<i64> = Option::None;
                let mut k: usize = 0;
                while k < c.cells.len()
                    invariant
                        k <= c.cells@.len(),
                        best == min_i64(c.cells@.take(k as int)),
                    decreases c.cells@.len() - k,
                {
                    proof {
                        assert(c.cells@.take(k as int + 1).drop_last() =~= c.cells@.take(k as int));
                    }
                    match &c.cells[k] {
                        Cell::I64(v) => {
                            best = match best {
                                Option::None => Option::Some(*v),
                                Option::Some(m) => Option::Some(
                                    if *v < m {
                                        *v
                                    } else {
                                        m
                                    },
                                ),
                            };
                        },
                        _ => {},
                    }
                    k += 1;
                }
                proof {
                    assert(c.cells@.take(c.cells@.len() as int) =~= c.cells@);
                }
                best
            },
        }
    }
}


/// Copies a whole batch, column for column and cell for cell.
#[verifier::loop_isolation(false)]
pub fn duplicate_batch(b: &Batch) -> (r: Batch)
    ensures
        r.row_count == b.row_count,
        cols_like(r.columns@, b.columns@),
        b.wf() ==> r.wf() && r@ == b@,
{
    let mut columns: Vec<Column> = Vec::new();
    let mut i: usize = 0;
    while i < b.columns.len()
        invariant
            i <= b.columns@.len(),
            columns@.len() == i,
            forall|k: int|
                0 <= k < i ==> (#[trigger] columns@[k].name@) == b.columns@[k].name@ && col_v(
                    columns@[k],
                ) == col_v(b.columns@[k]),
        decreases b.columns@.len() - i,
    {
        let c = clone_column(&b.columns[i]);
        let ghost c0 = columns@;
        columns.push(c);
        proof {
            assert forall|k: int|
                0 <= k <= i implies (#[trigger] columns@[k].name@) == b.columns@[k].name@ && col_v(
                columns@[k],
            ) == col_v(b.columns@[k]) by {
                if k < i {
                    assert(columns@[k] == c0[k]);
                    assert(c0[k].name@ == b.columns@[k].name@ && col_v(c0[k]) == col_v(
                        b.columns@[k],
                    ));
                } else {
                    assert(columns@[k] == c);
                }
            }
        }
        i += 1;
    }
    let r = Batch { row_count: b.row_count, columns };
    proof {
        if b.wf() {
            lemma_like_same_model(r, *b);
        }
    }
    r
}

/// Column-wise equal batches have equal models, provided one of them has
/// distinct column names.
proof fn lemma_like_same_model(a: Batch, b: Batch)
    requires
        a.row_count == b.row_count,
        cols_like(a.columns@, b.columns@),
        b.wf(),
    ensures
        a@ == b@,
        a.wf(),
{
    assert forall|n: Seq<char>| #[trigger] has_col(a.columns@, n) implies has_col(b.columns@, n) by {
        let i = col_idx(a.columns@, n);
        assert(b.columns@[i].name@ == n);
    }
    assert forall|n: Seq<char>| #[trigger] has_col(b.columns@, n) implies has_col(a.columns@, n) by {
        let i = col_idx(b.columns@, n);
        assert(a.columns@[i].name@ == n);
    }
    assert forall|n: Seq<char>| #[trigger] has_col(a.columns@, n) implies col_v(
        a.columns@[col_idx(a.columns@, n)],
    ) == col_v(b.columns@[col_idx(b.columns@, n)]) by {
        let i = col_idx(a.columns@, n);
        let j = col_idx(b.columns@, n);
        assert(b.columns@[i].name@ == n);
        assert(b.columns@[j].name@ == n);
        if i < j {
            assert(b.columns@[i].name@ != b.columns@[j].name@);
        } else if j < i {
            assert(b.columns@[j].name@ != b.columns@[i].name@);
        }
        assert(i == j);
        assert(col_v(a.columns@[i]) == col_v(b.columns@[i]));
    }
    assert(a@.cols =~= b@.cols);
    assert forall|i: int, j: int|
        0 <= i < j < a.columns@.len() implies (#[trigger] a.columns@[i].name@) != (
    #[trigger] a.columns@[j].name@) by {
        assert(b.columns@[i].name@ != b.columns@[j].name@);
    }
    assert forall|i: int|
        0 <= i < a.columns@.len() implies (#[trigger] a.columns@[i].cells@.len()) == a.row_count
        && a.columns@[i].wf() by {
        assert(a.columns@[i].name@ == b.columns@[i].name@);
        assert(col_v(a.columns@[i]) == col_v(b.columns@[i]));
        assert(b.columns@[i].cells@.len() == b.row_count && b.columns@[i].wf());
        assert(a.columns@[i].cells@ == b.columns@[i].cells@);
        assert(a.columns@[i].typ == b.columns@[i].typ);
    }
}

} // verus!
