//! An in-memory cache of namespace schemas, merged additively: a put
//! never loses columns an earlier put of the same namespace recorded.

use crate::data::has_key;
use crate::data::key_idx;
use crate::data::keys_distinct;
use crate::data::lemma_key_idx;
use crate::types::KafkaTopicId;
use crate::types::NamespaceId;
use crate::types::QueryPoolId;
use crate::types::TableId;
use vstd::prelude::*;

verus! {

/// The type of a schema column.
#[derive(Debug, Clone, Copy, PartialEq, Eq, Structural)]
pub enum ColumnType {
    Bool,
    I64,
    U64,
    F64,
    Str,
    Time,
    Tag,
}

/// What a table schema records per column.
#[derive(Debug, Clone, Copy, PartialEq, Eq, Structural)]
pub struct ColumnSchema {
    pub id: i64,
    pub column_type: ColumnType,
}

/// One column of one table, as the catalog hands it out.
#[derive(Debug, Clone, PartialEq)]
pub struct Column {
    pub id: i64,
    pub table_id: TableId,
    pub name: String,
    pub column_type: ColumnType,
}

/// The schema of one table: its columns, keyed by name.
#[derive(Debug, Clone, PartialEq)]
pub struct TableSchema {
    pub id: TableId,
    pub columns: Vec<(String, ColumnSchema)>,
}

/// Model of a table schema: column names by view.
pub struct TableSchemaV {
    pub id: i64,
    pub columns: Seq<(Seq<char>, ColumnSchema)>,
}

/// The model of a column list.
pub open spec fn table_cols_v(s: Seq<(String, ColumnSchema)>) -> Seq<(Seq<char>, ColumnSchema)> {
    s.map(|i: int, c: (String, ColumnSchema)| (c.0@, c.1))
}

pub open spec fn table_schema_v(t: TableSchema) -> TableSchemaV {
    TableSchemaV { id: t.id.0, columns: table_cols_v(t.columns@) }
}

impl TableSchema {
    /// A schema with no columns.
    pub fn new(id: TableId) -> (r: Self)
        ensures
            r.id == id,
            r.columns@.len() == 0,
    {
        TableSchema { id, columns: Vec::new() }
    }

    /// Records one column under its name.
    pub fn add_column(&mut self, col: &Column)
        ensures
            final(self).id == old(self).id,
            final(self).columns@.len() == old(self).columns@.len() + 1,
            final(self).columns@.drop_last() == old(self).columns@,
            final(self).columns@.last().0@ == col.name@,
            final(self).columns@.last().1 == (ColumnSchema {
                id: col.id,
                column_type: col.column_type,
            }),
    {
        let name = col.name.clone();
        self.columns.push((name, ColumnSchema { id: col.id, column_type: col.column_type }));
    }
}

/// The schema of one namespace: its tables, keyed by name, plus limits.
#[derive(Debug, Clone, PartialEq)]
pub struct NamespaceSchema {
    pub id: NamespaceId,
    pub topic_id: KafkaTopicId,
    pub query_pool_id: QueryPoolId,
    pub tables: Vec<(String, TableSchema)>,
    pub max_columns_per_table: usize,
    pub max_tables: usize,
    pub retention_period_ns: Option<i64>,
}

/// Model of a namespace schema.
pub struct NamespaceSchemaV {
    pub id: i64,
    pub topic_id: i64,
    pub query_pool_id: i64,
    pub tables: Seq<(Seq<char>, TableSchemaV)>,
    pub max_columns_per_table: usize,
    pub max_tables: usize,
    pub retention_period_ns: Option<i64>,
}

pub open spec fn namespace_schema_v(s: NamespaceSchema) -> NamespaceSchemaV {
    NamespaceSchemaV {
        id: s.id.0,
        topic_id: s.topic_id.0,
        query_pool_id: s.query_pool_id.0,
        tables: s.tables@.map(|i: int, t: (String, TableSchema)| (t.0@, table_schema_v(t.1))),
        max_columns_per_table: s.max_columns_per_table,
        max_tables: s.max_tables,
        retention_period_ns: s.retention_period_ns,
    }
}

/// Whether some entry of a model sequence is keyed `n`.
pub open spec fn v_has_key<T>(s: Seq<(Seq<char>, T)>, n: Seq<char>) -> bool {
    exists|i: int| 0 <= i < s.len() && (#[trigger] s[i].0) == n
}

/// Copies a table schema.
#[verifier::loop_isolation(false)]
fn clone_table_schema(t: &TableSchema) -> (r: TableSchema)
    ensures
        table_schema_v(r) == table_schema_v(*t),
{
    let mut columns: Vec<(String, ColumnSchema)> = Vec::new();
    let mut i: usize = 0;
    while i < t.columns.len()
        invariant
            i <= t.columns@.len(),
            columns@.len() == i,
            forall|k: int|
                0 <= k < i ==> (#[trigger] columns@[k].0@) == t.columns@[k].0@ && columns@[k].1
                    == t.columns@[k].1,
        decreases t.columns@.len() - i,
    {
        let name = t.columns[i].0.clone();
        let schema = t.columns[i].1;
        columns.push((name, schema));
        i += 1;
    }
    let r = TableSchema { id: t.id, columns };
    proof {
        assert(table_schema_v(r).columns =~= table_schema_v(*t).columns);
    }
    r
}

/// Copies a namespace schema.
#[verifier::loop_isolation(false)]
fn clone_namespace_schema(s: &NamespaceSchema) -> (r: NamespaceSchema)
    ensures
        namespace_schema_v(r) == namespace_schema_v(*s),
{
    let mut tables: Vec<(String, TableSchema)> = Vec::new();
    let mut i: usize = 0;
    while i < s.tables.len()
        invariant
            i <= s.tables@.len(),
            tables@.len() == i,
            forall|k: int|
                0 <= k < i ==> (#[trigger] tables@[k].0@) == s.tables@[k].0@ && table_schema_v(
                    tables@[k].1,
                ) == table_schema_v(s.tables@[k].1),
        decreases s.tables@.len() - i,
    {
        let name = s.tables[i].0.clone();
        let t = clone_table_schema(&s.tables[i].1);
        tables.push((name, t));
        i += 1;
    }
    let r = NamespaceSchema {
        id: s.id,
        topic_id: s.topic_id,
        query_pool_id: s.query_pool_id,
        tables,
        max_columns_per_table: s.max_columns_per_table,
        max_tables: s.max_tables,
        retention_period_ns: s.retention_period_ns,
    };
    proof {
        assert(namespace_schema_v(r).tables =~= namespace_schema_v(*s).tables);
    }
    r
}

/// The columns of `older` whose names do not appear in `newer`, in order.
pub open spec fn columns_missing_from(
    older: Seq<(Seq<char>, ColumnSchema)>,
    newer: Seq<(Seq<char>, ColumnSchema)>,
) -> Seq<(Seq<char>, ColumnSchema)>
    decreases older.len(),
{
    if older.len() == 0 {
        Seq::empty()
    } else {
        let rest = columns_missing_from(older.drop_last(), newer);
        if v_has_key(newer, older.last().0) {
            rest
        } else {
            rest.push(older.last())
        }
    }
}

/// How one table's schema looks after an additive merge: the newer
/// columns, then the older columns the newer set does not name.
pub open spec fn merged_table_v(older: TableSchemaV, newer: TableSchemaV) -> TableSchemaV {
    TableSchemaV {
        id: newer.id,
        columns: newer.columns + columns_missing_from(older.columns, newer.columns),
    }
}

/// Whether a column of that name stands among the first `n0` entries.
#[verifier::loop_isolation(false)]
fn column_among(columns: &Vec<(String, ColumnSchema)>, n0: usize, name: &String) -> (r: bool)
    requires
        n0 <= columns@.len(),
    ensures
        r == v_has_key(table_cols_v(columns@.take(n0 as int)), name@),
{
    let mut i: usize = 0;
    while i < n0
        invariant
            i <= n0,
            forall|k: int| 0 <= k < i ==> (#[trigger] columns@[k].0@) != name@,
        decreases n0 - i,
    {
        if columns[i].0 == *name {
            proof {
                assert(table_cols_v(columns@.take(n0 as int))[i as int].0 == name@);
            }
            return true;
        }
        i += 1;
    }
    proof {
        if v_has_key(table_cols_v(columns@.take(n0 as int)), name@) {
            let w = choose|w: int|
                0 <= w < table_cols_v(columns@.take(n0 as int)).len() && (#[trigger] table_cols_v(
                    columns@.take(n0 as int),
                )[w].0) == name@;
            assert(columns@[w].0@ != name@);
        }
    }
    false
}

/// Merges an older table schema into a newer one for the same table:
/// the newer columns stay, and every column only the older schema named
/// is appended, in its old order.
#[verifier::loop_isolation(false)]
fn merge_table(newer: &mut TableSchema, older: &TableSchema)
    ensures
        table_schema_v(*final(newer)) == merged_table_v(
            table_schema_v(*older),
            table_schema_v(*old(newer)),
        ),
{
    let n0 = newer.columns.len();
    let ghost base = table_cols_v(old(newer).columns@);
    let ghost oldv = table_cols_v(older.columns@);
    let mut j: usize = 0;
    while j < older.columns.len()
        invariant
            j <= older.columns@.len(),
            n0 <= newer.columns@.len(),
            newer.id == old(newer).id,
            newer.columns@.take(n0 as int) == old(newer).columns@,
            table_cols_v(newer.columns@) == base + columns_missing_from(oldv.take(j as int), base),
        decreases older.columns@.len() - j,
    {
        proof {
            assert(oldv.take(j as int + 1).drop_last() =~= oldv.take(j as int));
            assert(oldv.take(j as int + 1).last() == oldv[j as int]);
            assert(newer.columns@.take(n0 as int) =~= old(newer).columns@);
            assert(table_cols_v(newer.columns@).take(n0 as int) =~= base);
            assert forall|k: int|
                0 <= k < n0 implies (#[trigger] table_cols_v(newer.columns@)[k]) == base[k] by {
                assert(newer.columns@[k] == old(newer).columns@[k]);
            }
        }
        let present = column_among(&newer.columns, n0, &older.columns[j].0);
        proof {
            assert(table_cols_v(newer.columns@.take(n0 as int)) =~= base);
        }
        if !present {
            let name = older.columns[j].0.clone();
            let schema = older.columns[j].1;
            newer.columns.push((name, schema));
            proof {
                assert(table_cols_v(newer.columns@) =~= (base + columns_missing_from(
                    oldv.take(j as int),
                    base,
                )).push(oldv[j as int]));
                assert(base + columns_missing_from(oldv.take(j as int + 1), base)
                    =~= (base + columns_missing_from(oldv.take(j as int), base)).push(
                    oldv[j as int],
                ));
            }
        }
        j += 1;
    }
    proof {
        assert(oldv.take(older.columns@.len() as int) =~= oldv);
    }
}

/// An error reporting that a namespace is not present in the cache.
#[derive(Debug, Clone, PartialEq)]
pub struct CacheMissErr {
    pub namespace: String,
}

/// An in-memory cache of namespace schemas, keyed by namespace name.
#[derive(Debug, PartialEq)]
pub struct MemoryNamespaceCache {
    pub cache: Vec<(String, NamespaceSchema)>,
}

impl Default for MemoryNamespaceCache {
    fn default() -> (r: Self)
        ensures
            r.cache@.len() == 0,
    {
        MemoryNamespaceCache { cache: Vec::new() }
    }
}

impl MemoryNamespaceCache {
    /// Entry names are distinct.
    pub open spec fn wf(&self) -> bool {
        keys_distinct(self.cache@)
    }

    /// Hands back a copy of the cached schema, or a miss naming the
    /// namespace.
    pub fn get_schema(&self, namespace: &String) -> (r: Result<NamespaceSchema, CacheMissErr>)
        requires
            self.wf(),
        ensures
            match r {
                Ok(s) => has_key(self.cache@, namespace@) && namespace_schema_v(s)
                    == namespace_schema_v(
                    self.cache@[key_idx(self.cache@, namespace@)].1,
                ),
                Err(e) => !has_key(self.cache@, namespace@) && e.namespace@ == namespace@,
            },
    {
        match crate::data::find_key(&self.cache, namespace) {
            Option::Some(i) => {
                proof {
                    lemma_key_idx(self.cache@, i as int);
                }
                Ok(clone_namespace_schema(&self.cache[i].1))
            },
            Option::None => Err(CacheMissErr { namespace: namespace.clone() }),
        }
    }

    /// Stores a schema under a namespace name.  A schema already cached
    /// under that name is merged in additively, so columns recorded by an
    /// earlier racy put survive; the previous schema and the schema now
    /// cached are both handed back.
    #[verifier::loop_isolation(false)]
    #[verifier::rlimit(60)]
    pub fn put_schema(&mut self, namespace: String, schema: NamespaceSchema) -> (r: (
        Option<NamespaceSchema>,
        NamespaceSchema,
    ))
        requires
            old(self).wf(),
            has_key(old(self).cache@, namespace@) ==> old(self).cache@[key_idx(
                old(self).cache@,
                namespace@,
            )].1.id == schema.id,
        ensures
            final(self).wf(),
            has_key(final(self).cache@, namespace@),
            namespace_schema_v(final(self).cache@[key_idx(final(self).cache@, namespace@)].1)
                == namespace_schema_v(r.1),
            if has_key(old(self).cache@, namespace@) {
                let i = key_idx(old(self).cache@, namespace@);
                let prior = old(self).cache@[i].1;
                &&& final(self).cache@.len() == old(self).cache@.len()
                &&& (forall|q: int|
                    0 <= q < old(self).cache@.len() && q != i
                        ==> (#[trigger] final(self).cache@[q]) == old(self).cache@[q])
                &&& final(self).cache@[i].0 == old(self).cache@[i].0
                &&& (r.0 matches Option::Some(prev) && namespace_schema_v(prev)
                    == namespace_schema_v(prior))
                &&& ({
                    let mv = namespace_schema_v(final(self).cache@[i].1);
                    let nv = namespace_schema_v(schema);
                    let ov = namespace_schema_v(prior);
                    &&& mv.id == nv.id
                    &&& mv.topic_id == nv.topic_id
                    &&& mv.query_pool_id == nv.query_pool_id
                    &&& mv.max_columns_per_table == nv.max_columns_per_table
                    &&& mv.max_tables == nv.max_tables
                    &&& mv.retention_period_ns == nv.retention_period_ns
                    &&& mv.tables.len() == nv.tables.len()
                    &&& forall|k: int|
                        0 <= k < nv.tables.len() ==> (#[trigger] mv.tables[k].0) == nv.tables[k].0
                            && if v_has_key(ov.tables, nv.tables[k].0) {
                            exists|j: int|
                                0 <= j < ov.tables.len() && (#[trigger] ov.tables[j].0)
                                    == nv.tables[k].0 && mv.tables[k].1 == merged_table_v(
                                    ov.tables[j].1,
                                    nv.tables[k].1,
                                )
                        } else {
                            mv.tables[k].1 == nv.tables[k].1
                        }
                })
            } else {
                &&& final(self).cache@.len() == old(self).cache@.len() + 1
                &&& final(self).cache@.take(old(self).cache@.len() as int) == old(self).cache@
                &&& final(self).cache@.last().0@ == namespace@
                &&& r.0 is None
                &&& namespace_schema_v(final(self).cache@.last().1) == namespace_schema_v(schema)
            },
    {
        match crate::data::find_key(&self.cache, &namespace) {
            Option::Some(i) => {
                proof {
                    lemma_key_idx(self.cache@, i as int);
                }
                let ghost s0 = self.cache@;
                let prev = clone_namespace_schema(&self.cache[i].1);
                let mut merged = schema;
                let n = merged.tables.len();
                let ghost mv0 = namespace_schema_v(merged);
                let mut k: usize = 0;
                while k < n
                    invariant
                        k <= n,
                        0 <= i < self.cache@.len(),
                        n == merged.tables@.len(),
                        merged.id.0 == mv0.id,
                        merged.topic_id.0 == mv0.topic_id,
                        merged.query_pool_id.0 == mv0.query_pool_id,
                        merged.max_columns_per_table == mv0.max_columns_per_table,
                        merged.max_tables == mv0.max_tables,
                        merged.retention_period_ns == mv0.retention_period_ns,
                        forall|q: int|
                            0 <= q < n ==> (#[trigger] merged.tables@[q].0@) == mv0.tables[q].0,
                        forall|q: int|
                            k <= q < n ==> table_schema_v(#[trigger] merged.tables@[q].1)
                                == mv0.tables[q].1,
                        forall|q: int|
                            0 <= q < k ==> (if v_has_key(
                                namespace_schema_v(s0[i as int].1).tables,
                                mv0.tables[q].0,
                            ) {
                                exists|j: int|
                                    0 <= j < namespace_schema_v(s0[i as int].1).tables.len() && (
                                    #[trigger] namespace_schema_v(s0[i as int].1).tables[j].0)
                                        == mv0.tables[q].0 && table_schema_v(
                                        #[trigger] merged.tables@[q].1,
                                    ) == merged_table_v(
                                        namespace_schema_v(s0[i as int].1).tables[j].1,
                                        mv0.tables[q].1,
                                    )
                            } else {
                                table_schema_v(#[trigger] merged.tables@[q].1) == mv0.tables[q].1
                            }),
                    decreases n - k,
                {
                    let ghost ov = namespace_schema_v(s0[i as int].1);
                    match crate::data::find_key(&self.cache[i].1.tables, &merged.tables[k].0) {
                        Option::Some(j) => {
                            proof {
                                assert(ov.tables[j as int].0 == merged.tables@[k as int].0@);
                                assert(v_has_key(ov.tables, mv0.tables[k as int].0));
                            }
                            let older = clone_table_schema(&self.cache[i].1.tables[j].1);
                            merge_table(&mut merged.tables[k].1, &older);
                            proof {
                                assert(table_schema_v(merged.tables@[k as int].1)
                                    == merged_table_v(ov.tables[j as int].1, mv0.tables[k as int].1));
                            }
                        },
                        Option::None => {
                            proof {
                                if v_has_key(ov.tables, mv0.tables[k as int].0) {
                                    let w = choose|w: int|
                                        0 <= w < ov.tables.len() && (#[trigger] ov.tables[w].0)
                                            == mv0.tables[k as int].0;
                                    assert(s0[i as int].1.tables@[w].0@ == mv0.tables[k as int].0);
                                    assert(has_key(
                                        s0[i as int].1.tables@,
                                        merged.tables@[k as int].0@,
                                    ));
                                }
                            }
                        },
                    }
                    k += 1;
                }
                let out = clone_namespace_schema(&merged);
                // replace the stored schema with the merged one
                let name_back = self.cache[i].0.clone();
                self.cache[i] = (name_back, merged);
                proof {
                    assert(self.cache@[i as int].0@ == s0[i as int].0@);
                    assert(keys_distinct(self.cache@)) by {
                        assert forall|p: int, q: int|
                            0 <= p < q < self.cache@.len() implies (#[trigger] self.cache@[p].0@)
                            != (#[trigger] self.cache@[q].0@) by {
                            if p != i as int {
                                assert(self.cache@[p] == s0[p]);
                            }
                            if q != i as int {
                                assert(self.cache@[q] == s0[q]);
                            }
                            assert(s0[p].0@ != s0[q].0@);
                        }
                    }
                    lemma_key_idx(self.cache@, i as int);
                }
                (Option::Some(prev), out)
            },
            Option::None => {
                let out = clone_namespace_schema(&schema);
                let ghost s0 = self.cache@;
                self.cache.push((namespace, schema));
                proof {
                    assert(self.cache@.take(s0.len() as int) =~= s0);
                    assert(keys_distinct(self.cache@)) by {
                        assert forall|p: int, q: int|
                            0 <= p < q < self.cache@.len() implies (#[trigger] self.cache@[p].0@)
                            != (#[trigger] self.cache@[q].0@) by {
                            if q < s0.len() {
                                assert(s0[p].0@ != s0[q].0@);
                            } else {
                                assert(self.cache@[p] == s0[p]);
                                if self.cache@[p].0@ == self.cache@[q].0@ {
                                    assert(has_key(s0, self.cache@[q].0@));
                                }
                            }
                        }
                    }
                    lemma_key_idx(self.cache@, self.cache@.len() - 1);
                }
                (Option::None, out)
            },
        }
    }
}

} // verus!
