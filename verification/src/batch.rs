//! Columnar record batches.
//!
//! A [`Batch`] holds a rectangle of cells: a row count and a set of named,
//! typed columns, each with one cell per row.  Missing values are explicit
//! [`Cell::Null`]s.  Batches with different column sets can be merged by
//! schema union: absent columns are padded with nulls.

use vstd::prelude::*;

verus! {

/// The logical type of a column.
///
/// Floating-point columns carry their values as raw bit patterns, so the
/// buffer itself never computes on floats.
#[derive(Debug, Clone, Copy, PartialEq, Eq, Structural)]
pub enum ColType {
    I64,
    U64,
    F64,
    Bool,
    Str,
    Tag,
}

/// One value of one column at one row.
///
/// `F64Bits` carries the IEEE-754 bit pattern of a 64-bit float.
#[derive(Debug, Clone, PartialEq)]
pub enum Cell {
    Null,
    I64(i64),
    U64(u64),
    F64Bits(u64),
    Bool(bool),
    Str(String),
    Tag(String),
}

/// A named, typed column: one cell per row of its batch.
#[derive(Debug, Clone, PartialEq)]
pub struct Column {
    pub name: String,
    pub typ: ColType,
    pub cells: Vec<Cell>,
}

/// A rectangle of cells: `row_count` rows over named columns.
#[derive(Debug, Clone, PartialEq)]
pub struct Batch {
    pub row_count: usize,
    pub columns: Vec<Column>,
}

/// An error raised while working on batches.
#[derive(Debug, Clone, PartialEq)]
pub enum BatchError {
    /// Two columns of the same name carry different types.
    TypeMismatch { column: String },
    /// A merge would push the row count beyond `usize`.
    RowCountOverflow,
}

/// Whether a cell may appear in a column of type `t` (nulls fit anywhere).
pub open spec fn cell_ok(c: Cell, t: ColType) -> bool {
    match c {
        Cell::Null => true,
        Cell::I64(_) => t is I64,
        Cell::U64(_) => t is U64,
        Cell::F64Bits(_) => t is F64,
        Cell::Bool(_) => t is Bool,
        Cell::Str(_) => t is Str,
        Cell::Tag(_) => t is Tag,
    }
}

/// Mathematical model of a column: its type and its cells.
pub struct ColV {
    pub typ: ColType,
    pub cells: Seq<Cell>,
}

/// Mathematical model of a batch: a row count and a map from column name
/// to column content.
pub struct BatchV {
    pub rows: nat,
    pub cols: Map<Seq<char>, ColV>,
}

/// Whether some column of `cols` is named `n`.
pub open spec fn has_col(cols: Seq<Column>, n: Seq<char>) -> bool {
    exists|i: int| 0 <= i < cols.len() && #[trigger] cols[i].name@ == n
}

/// The index of the column of `cols` named `n`.
pub open spec fn col_idx(cols: Seq<Column>, n: Seq<char>) -> int {
    choose|i: int| 0 <= i < cols.len() && #[trigger] cols[i].name@ == n
}

/// The model of one column.
pub open spec fn col_v(c: Column) -> ColV {
    ColV { typ: c.typ, cells: c.cells@ }
}

/// The model of a sequence of columns, keyed by name.
pub open spec fn cols_map(cols: Seq<Column>) -> Map<Seq<char>, ColV> {
    Map::new(|n: Seq<char>| has_col(cols, n), |n: Seq<char>| col_v(cols[col_idx(cols, n)]))
}

impl View for Batch {
    type V = BatchV;

    open spec fn view(&self) -> BatchV {
        BatchV { rows: self.row_count as nat, cols: cols_map(self.columns@) }
    }
}

impl Column {
    /// Every cell fits the column's type.
    pub open spec fn wf(&self) -> bool {
        forall|i: int| 0 <= i < self.cells@.len() ==> cell_ok(#[trigger] self.cells@[i], self.typ)
    }
}

impl Batch {
    /// Column names are distinct and every column has one cell per row.
    pub open spec fn wf(&self) -> bool {
        &&& forall|i: int, j: int|
            0 <= i < j < self.columns@.len() ==> (#[trigger] self.columns@[i].name@) != (
            #[trigger] self.columns@[j].name@)
        &&& forall|i: int|
            0 <= i < self.columns@.len() ==> (#[trigger] self.columns@[i].cells@.len())
                == self.row_count && self.columns@[i].wf()
    }

    /// A batch with no rows and no columns.
    pub fn new() -> (r: Batch)
        ensures
            r.wf(),
            r@.rows == 0,
            r@.cols == Map::<Seq<char>, ColV>::empty(),
    {
        let r = Batch { row_count: 0, columns: Vec::new() };
        proof {
            assert(r@.cols =~= Map::<Seq<char>, ColV>::empty());
        }
        r
    }
}

/// A sequence of `n` null cells.
pub open spec fn nulls(n: nat) -> Seq<Cell> {
    Seq::new(n, |i: int| Cell::Null)
}

/// Copies a cell; string contents carry over unchanged.
pub fn clone_cell(c: &Cell) -> (r: Cell)
    ensures
        r == *c,
{
    match c {
        Cell::Null => Cell::Null,
        Cell::I64(v) => Cell::I64(*v),
        Cell::U64(v) => Cell::U64(*v),
        Cell::F64Bits(v) => Cell::F64Bits(*v),
        Cell::Bool(v) => Cell::Bool(*v),
        Cell::Str(s) => Cell::Str(s.clone()),
        Cell::Tag(s) => Cell::Tag(s.clone()),
    }
}

/// Appends copies of all of `src` to `dst`.
pub fn push_cloned_cells(dst: &mut Vec<Cell>, src: &Vec<Cell>)
    ensures
        final(dst)@ == old(dst)@ + src@,
{
    let ghost d0 = old(dst)@;
    let mut i: usize = 0;
    while i < src.len()
        invariant
            i <= src@.len(),
            dst@ == d0 + src@.take(i as int),
        decreases src@.len() - i,
    {
        let c = clone_cell(&src[i]);
        dst.push(c);
        proof {
            assert(d0 + src@.take(i as int) + seq![src@[i as int]] =~= d0 + src@.take(
                i as int + 1,
            ));
        }
        i += 1;
    }
    proof {
        assert(src@.take(src@.len() as int) =~= src@);
    }
}

/// Appends `n` null cells to `dst`.
pub fn push_nulls(dst: &mut Vec<Cell>, n: usize)
    ensures
        final(dst)@ == old(dst)@ + nulls(n as nat),
{
    let ghost d0 = old(dst)@;
    let mut i: usize = 0;
    while i < n
        invariant
            i <= n,
            dst@ == d0 + nulls(i as nat),
        decreases n - i,
    {
        dst.push(Cell::Null);
        proof {
            assert(d0 + nulls(i as nat) + seq![Cell::Null] =~= d0 + nulls((i + 1) as nat));
        }
        i += 1;
    }
}

/// Whether two batch models agree on the type of every shared column name.
pub open spec fn batch_compat(a: BatchV, b: BatchV) -> bool {
    forall|n: Seq<char>|
        #[trigger] a.cols.dom().contains(n) && b.cols.dom().contains(n) ==> a.cols[n].typ
            == b.cols[n].typ
}

/// Schema union of two batch models: shared columns are concatenated,
/// one-sided columns are padded with nulls for the rows of the other side.
pub open spec fn batch_extend(a: BatchV, b: BatchV) -> BatchV {
    BatchV {
        rows: a.rows + b.rows,
        cols: Map::new(
            |n: Seq<char>| a.cols.dom().contains(n) || b.cols.dom().contains(n),
            |n: Seq<char>|
                ColV {
                    typ: if a.cols.dom().contains(n) {
                        a.cols[n].typ
                    } else {
                        b.cols[n].typ
                    },
                    cells: (if a.cols.dom().contains(n) {
                        a.cols[n].cells
                    } else {
                        nulls(a.rows)
                    }) + (if b.cols.dom().contains(n) {
                        b.cols[n].cells
                    } else {
                        nulls(b.rows)
                    }),
                },
        ),
    }
}

/// In a sequence of distinctly-named columns, the column found for the name
/// of the column at `i` is the column at `i` itself.
pub proof fn lemma_col_idx(cols: Seq<Column>, i: int)
    requires
        0 <= i < cols.len(),
        forall|p: int, q: int|
            0 <= p < q < cols.len() ==> (#[trigger] cols[p].name@) != (#[trigger] cols[q].name@),
    ensures
        has_col(cols, cols[i].name@),
        col_idx(cols, cols[i].name@) == i,
{
    assert(0 <= i < cols.len() && cols[i].name@ == cols[i].name@);
    let j = col_idx(cols, cols[i].name@);
    if j < i {
        assert(cols[j].name@ != cols[i].name@);
    } else if j > i {
        assert(cols[i].name@ != cols[j].name@);
    }
}

/// How a column of the left batch looks after the merge: its own cells,
/// then the right batch's matching cells or nulls.
pub open spec fn ext_self_col_ok(a: Batch, b: Batch, p: int, c: Column) -> bool {
    &&& c.name@ == a.columns@[p].name@
    &&& c.typ == a.columns@[p].typ
    &&& c.cells@ == a.columns@[p].cells@ + (if has_col(b.columns@, c.name@) {
        b.columns@[col_idx(b.columns@, c.name@)].cells@
    } else {
        nulls(b.row_count as nat)
    })
}

/// How a column only the right batch has looks after the merge: nulls for
/// the left batch's rows, then its own cells.
pub open spec fn ext_other_col_ok(a: Batch, b: Batch, c: Column) -> bool {
    &&& !has_col(a.columns@, c.name@)
    &&& has_col(b.columns@, c.name@)
    &&& c.typ == b.columns@[col_idx(b.columns@, c.name@)].typ
    &&& c.cells@ == nulls(a.row_count as nat) + b.columns@[col_idx(b.columns@, c.name@)].cells@
}

impl Batch {
    /// Appends all rows of `other`, merging schemas by column union: a
    /// column absent on one side is padded with nulls for that side's rows.
    /// Fails, leaving `self` unchanged, exactly when the two batches carry
    /// a shared column name at different types.
    #[verifier::loop_isolation(false)]
    #[verifier::rlimit(60)]
    pub fn extend_from(&mut self, other: &Batch) -> (r: Result<(), BatchError>)
        requires
            old(self).wf(),
            other.wf(),
            old(self).row_count + other.row_count <= usize::MAX,
        ensures
            match r {
                Ok(_) => {
                    &&& batch_compat(old(self)@, other@)
                    &&& final(self).wf()
                    &&& final(self)@ == batch_extend(old(self)@, other@)
                },
                Err(e) => {
                    &&& !batch_compat(old(self)@, other@)
                    &&& *final(self) == *old(self)
                    &&& match e {
                        BatchError::TypeMismatch { column } => {
                            &&& old(self)@.cols.dom().contains(column@)
                            &&& other@.cols.dom().contains(column@)
                            &&& old(self)@.cols[column@].typ != other@.cols[column@].typ
                        },
                        BatchError::RowCountOverflow => false,
                    }
                },
            },
    {
        let ghost a0 = *old(self);
        let n0 = self.columns.len();
        let mut new_cols: Vec<Column> = Vec::new();
        let mut i: usize = 0;
        while i < n0
            invariant
                i <= n0,
                *self == a0,
                new_cols@.len() == i,
                forall|p: int| 0 <= p < i ==> ext_self_col_ok(a0, *other, p, new_cols@[p]),
                forall|p: int|
                    0 <= p < i && has_col(other.columns@, #[trigger] a0.columns@[p].name@)
                        ==> other.columns@[col_idx(other.columns@, a0.columns@[p].name@)].typ
                        == a0.columns@[p].typ,
            decreases n0 - i,
        {
            let ctyp = self.columns[i].typ;
            proof {
                lemma_col_idx(self.columns@, i as int);
            }
            match find_col(&other.columns, &self.columns[i].name) {
                Some(j) => {
                    proof {
                        lemma_col_idx(other.columns@, j as int);
                    }
                    if !(ctyp == other.columns[j].typ) {
                        let column = self.columns[i].name.clone();
                        proof {
                            let n = a0.columns@[i as int].name@;
                            assert(a0@.cols.dom().contains(n));
                            assert(a0@.cols[n] == col_v(a0.columns@[i as int]));
                            assert(other@.cols.dom().contains(n));
                            assert(other@.cols[n] == col_v(other.columns@[j as int]));
                            assert(!batch_compat(a0@, other@));
                        }
                        return Err(BatchError::TypeMismatch { column });
                    }
                    let mut cells: Vec<Cell> = Vec::new();
                    push_cloned_cells(&mut cells, &self.columns[i].cells);
                    push_cloned_cells(&mut cells, &other.columns[j].cells);
                    let name = self.columns[i].name.clone();
                    new_cols.push(Column { name, typ: ctyp, cells });
                },
                None => {
                    let mut cells: Vec<Cell> = Vec::new();
                    push_cloned_cells(&mut cells, &self.columns[i].cells);
                    push_nulls(&mut cells, other.row_count);
                    let name = self.columns[i].name.clone();
                    new_cols.push(Column { name, typ: ctyp, cells });
                },
            }
            i += 1;
        }
        let mut j: usize = 0;
        while j < other.columns.len()
            invariant
                j <= other.columns@.len(),
                *self == a0,
                new_cols@.len() >= n0,
                forall|p: int| 0 <= p < n0 ==> ext_self_col_ok(a0, *other, p, new_cols@[p]),
                forall|p: int|
                    n0 <= p < new_cols@.len() ==> ext_other_col_ok(a0, *other, new_cols@[p]),
                forall|p: int|
                    n0 <= p < new_cols@.len() ==> exists|q: int|
                        0 <= q < j && (#[trigger] new_cols@[p].name@) == other.columns@[q].name@,
                forall|p1: int, p2: int|
                    n0 <= p1 < p2 < new_cols@.len() ==> (#[trigger] new_cols@[p1].name@) != (
                    #[trigger] new_cols@[p2].name@),
                forall|q: int|
                    0 <= q < j && !has_col(a0.columns@, #[trigger] other.columns@[q].name@)
                        ==> exists|p: int|
                        n0 <= p < new_cols@.len() && (#[trigger] new_cols@[p].name@)
                            == other.columns@[q].name@,
            decreases other.columns@.len() - j,
        {
            let ghost nc0 = new_cols@;
            proof {
                lemma_col_idx(other.columns@, j as int);
            }
            match find_col(&self.columns, &other.columns[j].name) {
                Some(_) => {
                    proof {
                        assert(has_col(a0.columns@, other.columns@[j as int].name@));
                    }
                },
                None => {
                    let mut cells: Vec<Cell> = Vec::new();
                    push_nulls(&mut cells, self.row_count);
                    push_cloned_cells(&mut cells, &other.columns[j].cells);
                    let name = other.columns[j].name.clone();
                    new_cols.push(Column { name, typ: other.columns[j].typ, cells });
                    proof {
                        let li = new_cols@.len() - 1;
                        assert(new_cols@[li].name@ == other.columns@[j as int].name@);
                        assert forall|p1: int| n0 <= p1 < li implies (#[trigger] new_cols@[
                        p1].name@) != new_cols@[li].name@ by {
                            let q = choose|q: int|
                                0 <= q < j && (#[trigger] new_cols@[p1].name@)
                                    == other.columns@[q].name@;
                            if new_cols@[p1].name@ == new_cols@[li].name@ {
                                assert(other.columns@[q].name@ == other.columns@[j as int].name@);
                            }
                        }
                    }
                },
            }
            proof {
                assert forall|q: int|
                    0 <= q <= j && !has_col(
                        a0.columns@,
                        #[trigger] other.columns@[q].name@,
                    ) implies exists|p: int|
                    n0 <= p < new_cols@.len() && (#[trigger] new_cols@[p].name@)
                        == other.columns@[q].name@ by {
                    if q < j {
                        let p = choose|p: int|
                            n0 <= p < nc0.len() && (#[trigger] nc0[p].name@)
                                == other.columns@[q].name@;
                        assert(new_cols@[p].name@ == other.columns@[q].name@);
                    } else {
                        assert(new_cols@[new_cols@.len() - 1].name@ == other.columns@[q].name@);
                    }
                }
            }
            j += 1;
        }
        self.columns = new_cols;
        self.row_count = self.row_count + other.row_count;
        proof {
            lemma_extend_result(a0, *other, *self);
        }
        Ok(())
    }
}

/// The merge loops' postcondition implies the model-level contract of
/// [`Batch::extend_from`].
proof fn lemma_extend_result(a: Batch, b: Batch, r: Batch)
    requires
        a.wf(),
        b.wf(),
        a.row_count + b.row_count <= usize::MAX,
        r.row_count == a.row_count + b.row_count,
        r.columns@.len() >= a.columns@.len(),
        forall|p: int|
            0 <= p < a.columns@.len() ==> ext_self_col_ok(a, b, p, r.columns@[p]),
        forall|p: int|
            a.columns@.len() <= p < r.columns@.len() ==> ext_other_col_ok(a, b, r.columns@[p]),
        forall|p1: int, p2: int|
            a.columns@.len() <= p1 < p2 < r.columns@.len() ==> (#[trigger] r.columns@[p1].name@)
                != (#[trigger] r.columns@[p2].name@),
        forall|q: int|
            0 <= q < b.columns@.len() && !has_col(a.columns@, #[trigger] b.columns@[q].name@)
                ==> exists|p: int|
                a.columns@.len() <= p < r.columns@.len() && (#[trigger] r.columns@[p].name@)
                    == b.columns@[q].name@,
        forall|p: int|
            0 <= p < a.columns@.len() && has_col(b.columns@, #[trigger] a.columns@[p].name@)
                ==> b.columns@[col_idx(b.columns@, a.columns@[p].name@)].typ == a.columns@[p].typ,
    ensures
        batch_compat(a@, b@),
        r.wf(),
        r@ == batch_extend(a@, b@),
{
    let n0 = a.columns@.len() as int;
    // column names are distinct in the result
    assert forall|p1: int, p2: int| 0 <= p1 < p2 < r.columns@.len() implies (
    #[trigger] r.columns@[p1].name@) != (#[trigger] r.columns@[p2].name@) by {
        if p2 < n0 {
            assert(a.columns@[p1].name@ != a.columns@[p2].name@);
        } else if p1 < n0 {
            assert(!has_col(a.columns@, r.columns@[p2].name@));
            lemma_col_idx(a.columns@, p1);
            if r.columns@[p1].name@ == r.columns@[p2].name@ {
                assert(has_col(a.columns@, r.columns@[p2].name@));
            }
        }
    }
    // every result column fits its type and has one cell per row
    assert forall|p: int| 0 <= p < r.columns@.len() implies (#[trigger] r.columns@[p].cells@.len())
        == r.row_count && r.columns@[p].wf() by {
        let c = r.columns@[p];
        if p < n0 {
            let ac = a.columns@[p];
            if has_col(b.columns@, c.name@) {
                let bc = b.columns@[col_idx(b.columns@, c.name@)];
                assert(bc.typ == ac.typ);
                assert(forall|k: int|
                    0 <= k < c.cells@.len() ==> cell_ok(#[trigger] c.cells@[k], c.typ));
            } else {
                assert(forall|k: int|
                    0 <= k < c.cells@.len() ==> cell_ok(#[trigger] c.cells@[k], c.typ));
            }
        } else {
            assert(forall|k: int| 0 <= k < c.cells@.len() ==> cell_ok(#[trigger] c.cells@[k], c.typ));
        }
    }
    // compatibility of the two inputs
    assert forall|n: Seq<char>| #[trigger] a@.cols.dom().contains(n) && b@.cols.dom().contains(n)
        implies a@.cols[n].typ == b@.cols[n].typ by {
        let p = col_idx(a.columns@, n);
        lemma_col_idx(a.columns@, p);
    }
    // the result's model is the schema union
    let ev = batch_extend(a@, b@);
    assert forall|n: Seq<char>| #[trigger] has_col(r.columns@, n) implies a@.cols.dom().contains(n)
        || b@.cols.dom().contains(n) by {
        let p = col_idx(r.columns@, n);
        if p < n0 {
            lemma_col_idx(a.columns@, p);
        }
    }
    assert forall|n: Seq<char>|
        a@.cols.dom().contains(n) || b@.cols.dom().contains(n) implies #[trigger] has_col(
        r.columns@,
        n,
    ) by {
        if a@.cols.dom().contains(n) {
            let p = col_idx(a.columns@, n);
            assert(r.columns@[p].name@ == n);
        } else {
            let q = col_idx(b.columns@, n);
            if !has_col(a.columns@, n) {
                let p = choose|p: int|
                    n0 <= p < r.columns@.len() && (#[trigger] r.columns@[p].name@)
                        == b.columns@[q].name@;
                assert(r.columns@[p].name@ == n);
            }
        }
    }
    assert forall|n: Seq<char>| #[trigger] has_col(r.columns@, n) implies col_v(
        r.columns@[col_idx(r.columns@, n)],
    ) == ev.cols[n] by {
        let p = col_idx(r.columns@, n);
        let c = r.columns@[p];
        if p < n0 {
            lemma_col_idx(a.columns@, p);
            assert(a@.cols.dom().contains(n));
            assert(a@.cols[n] == col_v(a.columns@[p]));
            if has_col(b.columns@, n) {
                let q = col_idx(b.columns@, n);
                assert(b@.cols[n] == col_v(b.columns@[q]));
            }
        } else {
            assert(!has_col(a.columns@, n));
            let q = col_idx(b.columns@, n);
            assert(b@.cols[n] == col_v(b.columns@[q]));
        }
    }
    assert(r@.cols =~= ev.cols);
    assert(r@.rows == ev.rows);
    assert(r@ == ev);
}

/// Finds the index of the column named `name`, if one exists.
pub fn find_col(cols: &Vec<Column>, name: &String) -> (r: Option<usize>)
    ensures
        match r {
            Some(i) => i < cols@.len() && cols@[i as int].name@ == name@,
            None => !has_col(cols@, name@),
        },
{
    let mut i: usize = 0;
    while i < cols.len()
        invariant
            i <= cols@.len(),
            forall|p: int| 0 <= p < i ==> (#[trigger] cols@[p].name@) != name@,
        decreases cols@.len() - i,
    {
        if cols[i].name == *name {
            return Some(i);
        }
        i += 1;
    }
    proof {
        if has_col(cols@, name@) {
            let p = col_idx(cols@, name@);
            assert(cols@[p].name@ != name@);
        }
    }
    None
}


/// Whether two cells hold the same value, string payloads compared by
/// their contents.
pub open spec fn cell_like(a: Cell, b: Cell) -> bool {
    match (a, b) {
        (Cell::Null, Cell::Null) => true,
        (Cell::I64(x), Cell::I64(y)) => x == y,
        (Cell::U64(x), Cell::U64(y)) => x == y,
        (Cell::F64Bits(x), Cell::F64Bits(y)) => x == y,
        (Cell::Bool(x), Cell::Bool(y)) => x == y,
        (Cell::Str(x), Cell::Str(y)) => x@ == y@,
        (Cell::Tag(x), Cell::Tag(y)) => x@ == y@,
        _ => false,
    }
}

/// Whether two batches hold the same rectangle: the same row count and
/// the same columns, in order, with the same names, types and cell
/// values.
pub open spec fn batch_like(a: Batch, b: Batch) -> bool {
    &&& a.row_count == b.row_count
    &&& a.columns@.len() == b.columns@.len()
    &&& forall|i: int|
        0 <= i < a.columns@.len() ==> {
            let ca = #[trigger] a.columns@[i];
            let cb = b.columns@[i];
            &&& ca.name@ == cb.name@
            &&& ca.typ == cb.typ
            &&& ca.cells@.len() == cb.cells@.len()
            &&& forall|k: int| 0 <= k < ca.cells@.len() ==> cell_like(#[trigger] ca.cells@[k], cb.cells@[k])
        }
}

/// Compares two cells by value.
pub fn cell_eq(a: &Cell, b: &Cell) -> (r: bool)
    ensures
        r == cell_like(*a, *b),
{
    match (a, b) {
        (Cell::Null, Cell::Null) => true,
        (Cell::I64(x), Cell::I64(y)) => *x == *y,
        (Cell::U64(x), Cell::U64(y)) => *x == *y,
        (Cell::F64Bits(x), Cell::F64Bits(y)) => *x == *y,
        (Cell::Bool(x), Cell::Bool(y)) => *x == *y,
        (Cell::Str(x), Cell::Str(y)) => *x == *y,
        (Cell::Tag(x), Cell::Tag(y)) => *x == *y,
        _ => false,
    }
}

/// Compares two batches cell by cell.
#[verifier::loop_isolation(false)]
pub fn batch_eq(a: &Batch, b: &Batch) -> (r: bool)
    ensures
        r == batch_like(*a, *b),
{
    if a.row_count != b.row_count || a.columns.len() != b.columns.len() {
        return false;
    }
    let mut i: usize = 0;
    while i < a.columns.len()
        invariant
            i <= a.columns@.len(),
            a.columns@.len() == b.columns@.len(),
            a.row_count == b.row_count,
            forall|p: int|
                0 <= p < i ==> {
                    let ca = #[trigger] a.columns@[p];
                    let cb = b.columns@[p];
                    &&& ca.name@ == cb.name@
                    &&& ca.typ == cb.typ
                    &&& ca.cells@.len() == cb.cells@.len()
                    &&& forall|k: int|
                        0 <= k < ca.cells@.len() ==> cell_like(#[trigger] ca.cells@[k], cb.cells@[k])
                },
        decreases a.columns@.len() - i,
    {
        let ca = &a.columns[i];
        let cb = &b.columns[i];
        if !(ca.name == cb.name) || !(ca.typ == cb.typ) || ca.cells.len() != cb.cells.len() {
            return false;
        }
        let mut k: usize = 0;
        while k < ca.cells.len()
            invariant
                k <= ca.cells@.len(),
                ca.cells@.len() == cb.cells@.len(),
                forall|q: int| 0 <= q < k ==> cell_like(#[trigger] ca.cells@[q], cb.cells@[q]),
            decreases ca.cells@.len() - k,
        {
            if !cell_eq(&ca.cells[k], &cb.cells[k]) {
                return false;
            }
            k += 1;
        }
        i += 1;
    }
    true
}

} // verus!