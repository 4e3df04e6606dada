//! Aggregation of per-chunk table statistics, modeled over plain values.
//!
//! Statistics are additive: each update adds rows, bytes and null counts
//! and folds minima and maxima.  A field an update cannot speak for (an
//! absent count, a column the update does not carry) poisons that field,
//! so the aggregate never claims more than every update supported.

use vstd::prelude::*;
use vstd::string::StrSliceExecFns;

verus! {

/// A scalar boundary value of one column; floats carry their bit
/// patterns and are never ordered.
#[derive(Debug, Clone, PartialEq)]
pub enum ScalarValue {
    I64(Option<i64>),
    U64(Option<u64>),
    F64Bits(Option<u64>),
    Bool(Option<bool>),
    Utf8(Option<String>),
    TimestampNanos(Option<i64>),
}

/// Model of a scalar: string payloads by view.
pub enum ScalarV {
    I64(Option<i64>),
    U64(Option<u64>),
    F64Bits(Option<u64>),
    Bool(Option<bool>),
    Utf8(Option<Seq<char>>),
    TimestampNanos(Option<i64>),
}

pub open spec fn scalar_v(s: ScalarValue) -> ScalarV {
    match s {
        ScalarValue::I64(v) => ScalarV::I64(v),
        ScalarValue::U64(v) => ScalarV::U64(v),
        ScalarValue::F64Bits(v) => ScalarV::F64Bits(v),
        ScalarValue::Bool(v) => ScalarV::Bool(v),
        ScalarValue::Utf8(v) => ScalarV::Utf8(
            match v {
                Option::Some(t) => Option::Some(t@),
                Option::None => Option::None,
            },
        ),
        ScalarValue::TimestampNanos(v) => ScalarV::TimestampNanos(v),
    }
}

pub open spec fn scalar_opt_v(s: Option<ScalarValue>) -> Option<ScalarV> {
    match s {
        Option::Some(v) => Option::Some(scalar_v(v)),
        Option::None => Option::None,
    }
}

/// Whether `a <= b` under the partial order of scalars: values of the
/// same variant compare by value (an absent value sorts first, strings
/// by code point); different variants, and floats, do not compare.
pub open spec fn scalar_le(a: ScalarV, b: ScalarV) -> Option<bool> {
    match (a, b) {
        (ScalarV::I64(x), ScalarV::I64(y)) => Option::Some(opt_i64_le(x, y)),
        (ScalarV::U64(x), ScalarV::U64(y)) => Option::Some(opt_u64_le(x, y)),
        (ScalarV::Bool(x), ScalarV::Bool(y)) => Option::Some(opt_bool_le(x, y)),
        (ScalarV::TimestampNanos(x), ScalarV::TimestampNanos(y)) => Option::Some(opt_i64_le(x, y)),
        (ScalarV::Utf8(x), ScalarV::Utf8(y)) => Option::Some(opt_str_le(x, y)),
        _ => Option::None,
    }
}

pub open spec fn opt_i64_le(a: Option<i64>, b: Option<i64>) -> bool {
    match (a, b) {
        (Option::None, _) => true,
        (Option::Some(_), Option::None) => false,
        (Option::Some(x), Option::Some(y)) => x <= y,
    }
}

pub open spec fn opt_u64_le(a: Option<u64>, b: Option<u64>) -> bool {
    match (a, b) {
        (Option::None, _) => true,
        (Option::Some(_), Option::None) => false,
        (Option::Some(x), Option::Some(y)) => x <= y,
    }
}

pub open spec fn opt_bool_le(a: Option<bool>, b: Option<bool>) -> bool {
    match (a, b) {
        (Option::None, _) => true,
        (Option::Some(_), Option::None) => false,
        (Option::Some(x), Option::Some(y)) => !x || y,
    }
}

/// Lexicographic order on character sequences.
pub open spec fn str_le(a: Seq<char>, b: Seq<char>) -> bool
    decreases a.len(),
{
    if a.len() == 0 {
        true
    } else if b.len() == 0 {
        false
    } else if a[0] != b[0] {
        a[0] <= b[0]
    } else {
        str_le(a.drop_first(), b.drop_first())
    }
}

pub open spec fn opt_str_le(a: Option<Seq<char>>, b: Option<Seq<char>>) -> bool {
    match (a, b) {
        (Option::None, _) => true,
        (Option::Some(_), Option::None) => false,
        (Option::Some(x), Option::Some(y)) => str_le(x, y),
    }
}

/// Compares two strings lexicographically by code point.
#[verifier::loop_isolation(false)]
fn str_le_exec(a: &String, b: &String) -> (r: bool)
    ensures
        r == str_le(a@, b@),
{
    let av = a.as_str();
    let bv = b.as_str();
    let mut i: usize = 0;
    proof {
        assert(av@.skip(0) =~= av@);
        assert(bv@.skip(0) =~= bv@);
        assert(av@.take(0) =~= bv@.take(0));
    }
    loop
        invariant
            i <= av@.len(),
            i <= bv@.len(),
            av@.take(i as int) == bv@.take(i as int),
            str_le(a@, b@) == str_le(av@.skip(i as int), bv@.skip(i as int)),
        decreases av@.len() - i,
    {
        proof {
            lemma_str_le_step(av@, bv@, i as int);
        }
        if i >= av.unicode_len() {
            return true;
        }
        if i >= bv.unicode_len() {
            return false;
        }
        let ca = av.get_char(i);
        let cb = bv.get_char(i);
        if ca != cb {
            return ca <= cb;
        }
        proof {
            assert(av@.take(i as int + 1) =~= bv@.take(i as int + 1));
            assert(av@.skip(i as int).drop_first() =~= av@.skip(i as int + 1));
            assert(bv@.skip(i as int).drop_first() =~= bv@.skip(i as int + 1));
        }
        i += 1;
    }
}

/// One step of the lexicographic comparison.
proof fn lemma_str_le_step(a: Seq<char>, b: Seq<char>, i: int)
    requires
        0 <= i <= a.len(),
        0 <= i <= b.len(),
    ensures
        i >= a.len() ==> str_le(a.skip(i), b.skip(i)),
        i >= b.len() && i < a.len() ==> !str_le(a.skip(i), b.skip(i)),
        i < a.len() && i < b.len() && a[i] != b[i] ==> str_le(a.skip(i), b.skip(i)) == (a[i]
            <= b[i]),
{
    if i >= a.len() {
        assert(a.skip(i).len() == 0);
    } else if i >= b.len() {
        assert(b.skip(i).len() == 0);
        assert(a.skip(i).len() > 0);
    } else if a[i] != b[i] {
        assert(a.skip(i)[0] == a[i]);
        assert(b.skip(i)[0] == b[i]);
    }
}

/// Compares two scalars under the partial order.
pub fn scalar_le_exec(a: &ScalarValue, b: &ScalarValue) -> (r: Option<bool>)
    ensures
        r == scalar_le(scalar_v(*a), scalar_v(*b)),
{
    match (a, b) {
        (ScalarValue::I64(x), ScalarValue::I64(y)) => Option::Some(opt_i64_le_exec(x, y)),
        (ScalarValue::U64(x), ScalarValue::U64(y)) => Option::Some(opt_u64_le_exec(x, y)),
        (ScalarValue::Bool(x), ScalarValue::Bool(y)) => Option::Some(
            match (x, y) {
                (Option::None, _) => true,
                (Option::Some(_), Option::None) => false,
                (Option::Some(p), Option::Some(q)) => !*p || *q,
            },
        ),
        (ScalarValue::TimestampNanos(x), ScalarValue::TimestampNanos(y)) => Option::Some(
            opt_i64_le_exec(x, y),
        ),
        (ScalarValue::Utf8(x), ScalarValue::Utf8(y)) => Option::Some(
            match (x, y) {
                (Option::None, _) => true,
                (Option::Some(_), Option::None) => false,
                (Option::Some(p), Option::Some(q)) => str_le_exec(p, q),
            },
        ),
        _ => Option::None,
    }
}

fn opt_i64_le_exec(a: &Option<i64>, b: &Option<i64>) -> (r: bool)
    ensures
        r == opt_i64_le(*a, *b),
{
    match (a, b) {
        (Option::None, _) => true,
        (Option::Some(_), Option::None) => false,
        (Option::Some(x), Option::Some(y)) => *x <= *y,
    }
}

fn opt_u64_le_exec(a: &Option<u64>, b: &Option<u64>) -> (r: bool)
    ensures
        r == opt_u64_le(*a, *b),
{
    match (a, b) {
        (Option::None, _) => true,
        (Option::Some(_), Option::None) => false,
        (Option::Some(x), Option::Some(y)) => *x <= *y,
    }
}

/// Copies a scalar.
pub fn clone_scalar(s: &ScalarValue) -> (r: ScalarValue)
    ensures
        r == *s,
{
    match s {
        ScalarValue::I64(v) => ScalarValue::I64(*v),
        ScalarValue::U64(v) => ScalarValue::U64(*v),
        ScalarValue::F64Bits(v) => ScalarValue::F64Bits(*v),
        ScalarValue::Bool(v) => ScalarValue::Bool(*v),
        ScalarValue::Utf8(v) => ScalarValue::Utf8(
            match v {
                Option::Some(t) => Option::Some(t.clone()),
                Option::None => Option::None,
            },
        ),
        ScalarValue::TimestampNanos(v) => ScalarValue::TimestampNanos(*v),
    }
}


/// Statistics of one column.
#[derive(Debug, Clone, PartialEq)]
pub struct ColumnStatistics {
    pub null_count: Option<usize>,
    pub max_value: Option<ScalarValue>,
    pub min_value: Option<ScalarValue>,
    pub distinct_count: Option<usize>,
}

impl Default for ColumnStatistics {
    fn default() -> (r: Self)
        ensures
            r.null_count is None,
            r.max_value is None,
            r.min_value is None,
            r.distinct_count is None,
    {
        ColumnStatistics {
            null_count: Option::None,
            max_value: Option::None,
            min_value: Option::None,
            distinct_count: Option::None,
        }
    }
}

/// Model of one column's statistics.
pub struct CStatV {
    pub null_count: Option<usize>,
    pub max_value: Option<ScalarV>,
    pub min_value: Option<ScalarV>,
    pub distinct_count: Option<usize>,
}

pub open spec fn cstat_v(c: ColumnStatistics) -> CStatV {
    CStatV {
        null_count: c.null_count,
        max_value: scalar_opt_v(c.max_value),
        min_value: scalar_opt_v(c.min_value),
        distinct_count: c.distinct_count,
    }
}

/// Statistics of one table or chunk.
#[derive(Debug, Clone, PartialEq)]
pub struct Statistics {
    pub num_rows: Option<usize>,
    pub total_byte_size: Option<usize>,
    pub column_statistics: Option<Vec<ColumnStatistics>>,
    pub is_exact: bool,
}

/// A schema: its field names, in order.
#[derive(Debug, Clone, PartialEq)]
pub struct Schema {
    pub fields: Vec<String>,
}

impl Schema {
    pub fn new(fields: Vec<String>) -> (r: Self)
        ensures
            r.fields == fields,
    {
        Schema { fields }
    }
}

/// A min-or-max accumulator for one column: not yet fed, holding a
/// value, or poisoned by an update it could not fold.
#[derive(Debug, Clone, PartialEq)]
pub enum TriStateScalar {
    Valid(ScalarValue),
    Uninit,
    Invalid,
}

/// Model of the accumulator.
pub enum TriV {
    Valid(ScalarV),
    Uninit,
    Invalid,
}

pub open spec fn tri_v(t: TriStateScalar) -> TriV {
    match t {
        TriStateScalar::Valid(s) => TriV::Valid(scalar_v(s)),
        TriStateScalar::Uninit => TriV::Uninit,
        TriStateScalar::Invalid => TriV::Invalid,
    }
}

/// Folding one update into a maximum accumulator: an absent update or an
/// incomparable pair poisons it.
pub open spec fn tri_fold_max(t: TriV, u: Option<ScalarV>) -> TriV {
    match (t, u) {
        (TriV::Invalid, _) => TriV::Invalid,
        (_, Option::None) => TriV::Invalid,
        (TriV::Uninit, Option::Some(v)) => TriV::Valid(v),
        (TriV::Valid(b), Option::Some(v)) => match scalar_le(b, v) {
            Option::None => TriV::Invalid,
            Option::Some(true) => TriV::Valid(v),
            Option::Some(false) => TriV::Valid(b),
        },
    }
}

/// Folding one update into a minimum accumulator.
pub open spec fn tri_fold_min(t: TriV, u: Option<ScalarV>) -> TriV {
    match (t, u) {
        (TriV::Invalid, _) => TriV::Invalid,
        (_, Option::None) => TriV::Invalid,
        (TriV::Uninit, Option::Some(v)) => TriV::Valid(v),
        (TriV::Valid(b), Option::Some(v)) => match scalar_le(b, v) {
            Option::None => TriV::Invalid,
            Option::Some(true) => TriV::Valid(b),
            Option::Some(false) => TriV::Valid(v),
        },
    }
}

/// What an accumulator reports at the end: a value only if one was fed
/// and never poisoned.
pub open spec fn tri_collapse(t: TriV) -> Option<ScalarV> {
    match t {
        TriV::Valid(v) => Option::Some(v),
        _ => Option::None,
    }
}

/// One column's accumulators.
#[derive(Debug, Clone, PartialEq)]
pub struct DFStatsAggregatorCol {
    pub null_count: Option<usize>,
    pub max_value: TriStateScalar,
    pub min_value: TriStateScalar,
}

/// Model of one column's accumulators.
pub struct AggColV {
    pub null_count: Option<usize>,
    pub max_value: TriV,
    pub min_value: TriV,
}

pub open spec fn aggcol_v(c: DFStatsAggregatorCol) -> AggColV {
    AggColV {
        null_count: c.null_count,
        max_value: tri_v(c.max_value),
        min_value: tri_v(c.min_value),
    }
}

/// How one column's accumulators look after an update: fed by the
/// matching update column, or with its null count invalidated when the
/// update carried no such column.
pub open spec fn aggcol_after(base: AggColV, upd: Option<CStatV>) -> AggColV {
    match upd {
        Option::None => AggColV {
            null_count: Option::None,
            max_value: base.max_value,
            min_value: base.min_value,
        },
        Option::Some(u) => AggColV {
            null_count: match (base.null_count, u.null_count) {
                (Option::Some(a), Option::Some(b)) => Option::Some(((a + b) as usize)),
                _ => Option::None,
            },
            max_value: tri_fold_max(base.max_value, u.max_value),
            min_value: tri_fold_min(base.min_value, u.min_value),
        },
    }
}

/// The update column feeding base column `bi`, if the update's schema
/// names it.
pub open spec fn update_col_for(
    names: Seq<String>,
    bi: int,
    upd_fields: Seq<String>,
    upd_cols: Seq<ColumnStatistics>,
) -> Option<CStatV> {
    if exists|j: int| 0 <= j < upd_fields.len() && (#[trigger] upd_fields[j]@) == names[bi]@ {
        let j = choose|j: int| 0 <= j < upd_fields.len() && (#[trigger] upd_fields[j]@) == names[bi]@;
        Option::Some(cstat_v(upd_cols[j]))
    } else {
        Option::None
    }
}

/// Aggregates statistics over a fixed schema.
///
/// Starts from zero rows and bytes, zero nulls and unknown boundaries
/// per column, and an exact representation; updates are additive.
#[derive(Debug, Clone, PartialEq)]
pub struct DFStatsAggregator {
    pub names: Vec<String>,
    pub num_rows: Option<usize>,
    pub total_byte_size: Option<usize>,
    pub column_statistics: Option<Vec<DFStatsAggregatorCol>>,
    pub is_exact: bool,
}

impl DFStatsAggregator {
    /// Column names are distinct and the accumulators cover them.
    pub open spec fn wf(&self) -> bool {
        &&& forall|i: int, j: int|
            0 <= i < j < self.names@.len() ==> (#[trigger] self.names@[i]@) != (
            #[trigger] self.names@[j]@)
        &&& self.column_statistics matches Option::Some(cols) ==> cols@.len()
            == self.names@.len()
    }

    /// A fresh aggregator for the given schema.
    #[verifier::loop_isolation(false)]
    pub fn new(schema: &Schema) -> (r: Self)
        requires
            forall|i: int, j: int|
                0 <= i < j < schema.fields@.len() ==> (#[trigger] schema.fields@[i]@) != (
                #[trigger] schema.fields@[j]@),
        ensures
            r.wf(),
            r.names@.len() == schema.fields@.len(),
            forall|i: int|
                0 <= i < schema.fields@.len() ==> (#[trigger] r.names@[i]@)
                    == schema.fields@[i]@,
            r.num_rows == Option::Some(0usize),
            r.total_byte_size == Option::Some(0usize),
            r.column_statistics matches Option::Some(cols) && cols@.len()
                == schema.fields@.len() && forall|i: int|
                0 <= i < cols@.len() ==> aggcol_v(#[trigger] cols@[i]) == (AggColV {
                    null_count: Option::Some(0usize),
                    max_value: TriV::Uninit,
                    min_value: TriV::Uninit,
                }),
            r.is_exact,
    {
        let mut names: Vec<String> = Vec::new();
        let mut cols: Vec<DFStatsAggregatorCol> = Vec::new();
        let mut i: usize = 0;
        while i < schema.fields.len()
            invariant
                i <= schema.fields@.len(),
                names@.len() == i,
                cols@.len() == i,
                forall|k: int|
                    0 <= k < i ==> (#[trigger] names@[k]@) == schema.fields@[k]@,
                forall|k: int|
                    0 <= k < i ==> aggcol_v(#[trigger] cols@[k]) == (AggColV {
                        null_count: Option::Some(0usize),
                        max_value: TriV::Uninit,
                        min_value: TriV::Uninit,
                    }),
            decreases schema.fields@.len() - i,
        {
            names.push(schema.fields[i].clone());
            cols.push(
                DFStatsAggregatorCol {
                    null_count: Option::Some(0),
                    max_value: TriStateScalar::Uninit,
                    min_value: TriStateScalar::Uninit,
                },
            );
            i += 1;
        }
        DFStatsAggregator {
            names,
            num_rows: Option::Some(0),
            total_byte_size: Option::Some(0),
            column_statistics: Option::Some(cols),
            is_exact: true,
        }
    }

    /// Folds one chunk's statistics in.  Only columns the aggregator was
    /// created with are updated; column reordering is allowed; a column
    /// the update does not carry has its null count invalidated.  The
    /// update's statistics must cover its schema exactly.
    #[verifier::loop_isolation(false)]
    #[verifier::rlimit(60)]
    pub fn update(&mut self, update_stats: &Statistics, update_schema: &Schema)
        requires
            old(self).wf(),
            update_stats.column_statistics matches Option::Some(cols) ==> cols@.len()
                == update_schema.fields@.len(),
            forall|i: int, j: int|
                0 <= i < j < update_schema.fields@.len() ==> (
                #[trigger] update_schema.fields@[i]@) != (#[trigger] update_schema.fields@[j]@),
            match (old(self).num_rows, update_stats.num_rows) {
                (Option::Some(a), Option::Some(b)) => a + b <= usize::MAX,
                _ => true,
            },
            match (old(self).total_byte_size, update_stats.total_byte_size) {
                (Option::Some(a), Option::Some(b)) => a + b <= usize::MAX,
                _ => true,
            },
            forall|bi: int, uj: int|
                {
                    &&& 0 <= bi < old(self).names@.len()
                    &&& 0 <= uj < update_schema.fields@.len()
                    &&& (old(self).column_statistics matches Option::Some(bc)
                        && update_stats.column_statistics matches Option::Some(uc))
                    &&& (#[trigger] update_schema.fields@[uj]@) == (#[trigger] old(
                        self,
                    ).names@[bi]@)
                    &&& old(self).column_statistics.unwrap()@[bi].null_count matches Option::Some(
                        a,
                    )
                    &&& update_stats.column_statistics.unwrap()@[uj].null_count matches
                        Option::Some(b)
                } ==> old(self).column_statistics.unwrap()@[bi].null_count.unwrap()
                    + update_stats.column_statistics.unwrap()@[uj].null_count.unwrap()
                    <= usize::MAX,
        ensures
            final(self).wf(),
            final(self).names == old(self).names,
            final(self).num_rows == (match (old(self).num_rows, update_stats.num_rows) {
                (Option::Some(a), Option::Some(b)) => Option::Some(((a + b) as usize)),
                _ => Option::<usize>::None,
            }),
            final(self).total_byte_size == (match (
                old(self).total_byte_size,
                update_stats.total_byte_size,
            ) {
                (Option::Some(a), Option::Some(b)) => Option::Some(((a + b) as usize)),
                _ => Option::<usize>::None,
            }),
            final(self).is_exact == (old(self).is_exact && update_stats.is_exact),
            match (old(self).column_statistics, update_stats.column_statistics) {
                (Option::Some(bc), Option::Some(uc)) => final(self).column_statistics matches
                    Option::Some(nc) && nc@.len() == bc@.len() && forall|bi: int|
                    0 <= bi < bc@.len() ==> aggcol_v(#[trigger] nc@[bi]) == aggcol_after(
                        aggcol_v(bc@[bi]),
                        update_col_for(
                            old(self).names@,
                            bi,
                            update_schema.fields@,
                            uc@,
                        ),
                    ),
                _ => final(self).column_statistics is None,
            },
    {
        self.num_rows = match (&self.num_rows, &update_stats.num_rows) {
            (Option::Some(a), Option::Some(b)) => Option::Some(*a + *b),
            _ => Option::None,
        };
        self.total_byte_size = match (&self.total_byte_size, &update_stats.total_byte_size) {
            (Option::Some(a), Option::Some(b)) => Option::Some(*a + *b),
            _ => Option::None,
        };
        self.is_exact = self.is_exact && update_stats.is_exact;
        let update_cols = match &update_stats.column_statistics {
            Option::Some(uc) => uc,
            Option::None => {
                self.column_statistics = Option::None;
                return ;
            },
        };
        let mut taken: Option<Vec<DFStatsAggregatorCol>> = Option::None;
        core::mem::swap(&mut taken, &mut self.column_statistics);
        let mut base_cols = match taken {
            Option::Some(bc) => bc,
            Option::None => {
                return ;
            },
        };
        let ghost bc0 = base_cols@;
        let n = base_cols.len();
        let mut bi: usize = 0;
        while bi < n
            invariant
                bi <= n,
                n == base_cols@.len(),
                base_cols@.len() == bc0.len(),
                forall|k: int| bi <= k < n ==> (#[trigger] base_cols@[k]) == bc0[k],
                forall|k: int|
                    0 <= k < bi ==> aggcol_v(#[trigger] base_cols@[k]) == aggcol_after(
                        aggcol_v(bc0[k]),
                        update_col_for(
                            self.names@,
                            k,
                            update_schema.fields@,
                            update_cols@,
                        ),
                    ),
            decreases n - bi,
        {
            let mut found: Option<usize> = Option::None;
            let mut uj: usize = 0;
            while uj < update_schema.fields.len() && found.is_none()
                invariant
                    uj <= update_schema.fields@.len(),
                    match found {
                        Option::Some(j) => j < update_schema.fields@.len()
                            && update_schema.fields@[j as int]@ == self.names@[bi as int]@,
                        Option::None => forall|k: int|
                            0 <= k < uj ==> (#[trigger] update_schema.fields@[k]@)
                                != self.names@[bi as int]@,
                    },
                decreases update_schema.fields@.len() - uj + (if found is None {
                    1int
                } else {
                    0int
                }),
            {
                if update_schema.fields[uj] == self.names[bi] {
                    found = Option::Some(uj);
                } else {
                    uj += 1;
                }
            }
            match found {
                Option::Some(j) => {
                    proof {
                        assert(exists|k: int|
                            0 <= k < update_schema.fields@.len() && (
                            #[trigger] update_schema.fields@[k]@) == self.names@[bi as int]@);
                        let w = choose|k: int|
                            0 <= k < update_schema.fields@.len() && (
                            #[trigger] update_schema.fields@[k]@) == self.names@[bi as int]@;
                        if w != j as int {
                            assert(update_schema.fields@[w]@ != update_schema.fields@[j as int]@);
                        }
                    }
                    let u = &update_cols[j];
                    let new_null = match (&base_cols[bi].null_count, &u.null_count) {
                        (Option::Some(a), Option::Some(b)) => Option::Some(*a + *b),
                        _ => Option::None,
                    };
                    let new_max = fold_max(&base_cols[bi].max_value, &u.max_value);
                    let new_min = fold_min(&base_cols[bi].min_value, &u.min_value);
                    base_cols[bi] = DFStatsAggregatorCol {
                        null_count: new_null,
                        max_value: new_max,
                        min_value: new_min,
                    };
                },
                Option::None => {
                    proof {
                        if exists|k: int|
                            0 <= k < update_schema.fields@.len() && (
                            #[trigger] update_schema.fields@[k]@) == self.names@[bi as int]@ {
                            let w = choose|k: int|
                                0 <= k < update_schema.fields@.len() && (
                                #[trigger] update_schema.fields@[k]@) == self.names@[bi as int]@;
                            assert(update_schema.fields@[w]@ != self.names@[bi as int]@);
                        }
                    }
                    let keep_max = clone_tri(&base_cols[bi].max_value);
                    let keep_min = clone_tri(&base_cols[bi].min_value);
                    base_cols[bi] = DFStatsAggregatorCol {
                        null_count: Option::None,
                        max_value: keep_max,
                        min_value: keep_min,
                    };
                },
            }
            bi += 1;
        }
        self.column_statistics = Option::Some(base_cols);
    }

    /// Reads the aggregate out.
    #[verifier::loop_isolation(false)]
    pub fn build(self) -> (r: Statistics)
        ensures
            r.num_rows == self.num_rows,
            r.total_byte_size == self.total_byte_size,
            r.is_exact == self.is_exact,
            match self.column_statistics {
                Option::Some(cols) => r.column_statistics matches Option::Some(out) && out@.len()
                    == cols@.len() && forall|i: int|
                    0 <= i < cols@.len() ==> cstat_v(#[trigger] out@[i]) == (CStatV {
                        null_count: cols@[i].null_count,
                        max_value: tri_collapse(tri_v(cols@[i].max_value)),
                        min_value: tri_collapse(tri_v(cols@[i].min_value)),
                        distinct_count: Option::<usize>::None,
                    }),
                Option::None => r.column_statistics is None,
            },
    {
        let column_statistics = match self.column_statistics {
            Option::Some(cols) => {
                let mut out: Vec<ColumnStatistics> = Vec::new();
                let mut i: usize = 0;
                while i < cols.len()
                    invariant
                        i <= cols@.len(),
                        out@.len() == i,
                        forall|k: int|
                            0 <= k < i ==> cstat_v(#[trigger] out@[k]) == (CStatV {
                                null_count: cols@[k].null_count,
                                max_value: tri_collapse(tri_v(cols@[k].max_value)),
                                min_value: tri_collapse(tri_v(cols@[k].min_value)),
                                distinct_count: Option::<usize>::None,
                            }),
                    decreases cols@.len() - i,
                {
                    let max_value = match &cols[i].max_value {
                        TriStateScalar::Valid(v) => Option::Some(clone_scalar(v)),
                        _ => Option::None,
                    };
                    let min_value = match &cols[i].min_value {
                        TriStateScalar::Valid(v) => Option::Some(clone_scalar(v)),
                        _ => Option::None,
                    };
                    out.push(
                        ColumnStatistics {
                            null_count: cols[i].null_count,
                            max_value,
                            min_value,
                            distinct_count: Option::None,
                        },
                    );
                    i += 1;
                }
                Option::Some(out)
            },
            Option::None => Option::None,
        };
        Statistics {
            num_rows: self.num_rows,
            total_byte_size: self.total_byte_size,
            column_statistics,
            is_exact: self.is_exact,
        }
    }
}

/// Folds one update value into a maximum accumulator.
fn fold_max(t: &TriStateScalar, u: &Option<ScalarValue>) -> (r: TriStateScalar)
    ensures
        tri_v(r) == tri_fold_max(tri_v(*t), scalar_opt_v(*u)),
{
    match (t, u) {
        (TriStateScalar::Invalid, _) => TriStateScalar::Invalid,
        (_, Option::None) => TriStateScalar::Invalid,
        (TriStateScalar::Uninit, Option::Some(v)) => TriStateScalar::Valid(clone_scalar(v)),
        (TriStateScalar::Valid(b), Option::Some(v)) => match scalar_le_exec(b, v) {
            Option::None => TriStateScalar::Invalid,
            Option::Some(true) => TriStateScalar::Valid(clone_scalar(v)),
            Option::Some(false) => TriStateScalar::Valid(clone_scalar(b)),
        },
    }
}

/// Folds one update value into a minimum accumulator.
fn fold_min(t: &TriStateScalar, u: &Option<ScalarValue>) -> (r: TriStateScalar)
    ensures
        tri_v(r) == tri_fold_min(tri_v(*t), scalar_opt_v(*u)),
{
    match (t, u) {
        (TriStateScalar::Invalid, _) => TriStateScalar::Invalid,
        (_, Option::None) => TriStateScalar::Invalid,
        (TriStateScalar::Uninit, Option::Some(v)) => TriStateScalar::Valid(clone_scalar(v)),
        (TriStateScalar::Valid(b), Option::Some(v)) => match scalar_le_exec(b, v) {
            Option::None => TriStateScalar::Invalid,
            Option::Some(true) => TriStateScalar::Valid(clone_scalar(b)),
            Option::Some(false) => TriStateScalar::Valid(clone_scalar(v)),
        },
    }
}

/// Copies an accumulator.
fn clone_tri(t: &TriStateScalar) -> (r: TriStateScalar)
    ensures
        tri_v(r) == tri_v(*t),
{
    match t {
        TriStateScalar::Valid(v) => TriStateScalar::Valid(clone_scalar(v)),
        TriStateScalar::Uninit => TriStateScalar::Uninit,
        TriStateScalar::Invalid => TriStateScalar::Invalid,
    }
}

} // verus!