//! An in-memory model of the shared catalog collaborator.
//!
//! The catalog is the store of truth for identities (topics, sequencers,
//! namespaces, tables, partitions), tombstones and persisted-file records.
//! Every fallible call consumes one entry of an injectable fault schedule,
//! so callers' retry behaviour can be exercised and verified without a
//! network: an empty schedule means every call succeeds.

use crate::delete::DeletePredicate;
use crate::delete::Tombstone;
use crate::delete::clone_predicate;
use crate::delete::clone_tombstone;
use crate::delete::tomb_v;
use crate::delete::tombs_v;
use crate::types::KafkaPartition;
use crate::types::KafkaTopicId;
use crate::types::NamespaceId;
use crate::types::PartitionId;
use crate::types::QueryPoolId;
use crate::types::SequenceNumber;
use crate::types::SequencerId;
use crate::types::TableId;
use crate::types::Timestamp;
use crate::types::TombstoneId;
use vstd::prelude::*;

verus! {

/// A failure of a catalog call.
#[derive(Debug, Clone, Copy, PartialEq, Eq, Structural)]
pub enum CatalogError {
    /// The service could not be reached; retrying may help.
    Unavailable,
    /// A namespace of that name already exists.
    NameExists,
    /// No more record identifiers can be allocated.
    IdSpaceExhausted,
}

/// A kafka topic record.
#[derive(Debug, Clone, PartialEq)]
pub struct KafkaTopic {
    pub id: KafkaTopicId,
    pub name: String,
}

/// A query pool record.
#[derive(Debug, Clone, PartialEq)]
pub struct QueryPool {
    pub id: QueryPoolId,
    pub name: String,
}

/// A sequencer record: one partition of one topic.
#[derive(Debug, Clone, Copy, PartialEq, Eq, Structural)]
pub struct Sequencer {
    pub id: SequencerId,
    pub kafka_topic_id: KafkaTopicId,
    pub kafka_partition: KafkaPartition,
}

/// A namespace record.
#[derive(Debug, Clone, PartialEq)]
pub struct Namespace {
    pub id: NamespaceId,
    pub name: String,
    pub retention_duration: String,
    pub kafka_topic_id: KafkaTopicId,
    pub query_pool_id: QueryPoolId,
}

/// A table record.
#[derive(Debug, Clone, PartialEq)]
pub struct Table {
    pub id: TableId,
    pub namespace_id: NamespaceId,
    pub name: String,
}

/// A partition record.
#[derive(Debug, Clone, PartialEq)]
pub struct Partition {
    pub id: PartitionId,
    pub sequencer_id: SequencerId,
    pub table_id: TableId,
    pub partition_key: String,
}

/// What `partition_info_by_id` reports: the partition record and the names
/// of its table and namespace.
#[derive(Debug, Clone, PartialEq)]
pub struct PartitionInfo {
    pub partition: Partition,
    pub namespace_name: String,
    pub table_name: String,
}

/// A persisted-file record.
#[derive(Debug, Clone, Copy, PartialEq, Eq, Structural)]
pub struct ParquetFileRecord {
    pub id: i64,
    pub sequencer_id: SequencerId,
    pub table_id: TableId,
    pub partition_id: PartitionId,
    pub object_store_id: u128,
    pub min_sequence_number: SequenceNumber,
    pub max_sequence_number: SequenceNumber,
    pub min_time: Timestamp,
    pub max_time: Timestamp,
    pub row_count: usize,
    pub to_delete: bool,
}

/// What a persist cycle asks the catalog to record for one new file.
#[derive(Debug, Clone, Copy, PartialEq, Eq, Structural)]
pub struct ParquetFileParams {
    pub sequencer_id: SequencerId,
    pub table_id: TableId,
    pub partition_id: PartitionId,
    pub object_store_id: u128,
    pub min_sequence_number: SequenceNumber,
    pub max_sequence_number: SequenceNumber,
    pub min_time: Timestamp,
    pub max_time: Timestamp,
    pub row_count: usize,
}

/// An open catalog transaction: changes buffered here land only on commit.
#[derive(Debug, Clone, PartialEq)]
pub struct CatalogTransaction {
    pub parquet_file: Option<ParquetFileParams>,
    pub tombstone_ids: Vec<TombstoneId>,
}

/// The catalog's whole state.
#[derive(Debug, PartialEq)]
pub struct Catalog {
    pub kafka_topics: Vec<KafkaTopic>,
    pub query_pools: Vec<QueryPool>,
    pub sequencers: Vec<Sequencer>,
    pub namespaces: Vec<Namespace>,
    pub tables: Vec<Table>,
    pub partitions: Vec<Partition>,
    pub tombstones: Vec<Tombstone>,
    pub parquet_files: Vec<ParquetFileRecord>,
    /// Which tombstones were applied to which persisted file.
    pub processed_tombstones: Vec<(i64, TombstoneId)>,
    /// The next record identifier to hand out.
    pub next_id: i64,
    /// Injected failures, consumed from the end, one per fallible call;
    /// when empty, every call succeeds.
    pub faults: Vec<bool>,
}

/// How one catalog call treats the fault schedule: when the schedule is
/// empty the call succeeds, otherwise the last entry is consumed and says
/// whether the call failed.
pub open spec fn fault_step(a: Catalog, b: Catalog, failed: bool) -> bool {
    if a.faults@.len() == 0 {
        !failed && b.faults@ == a.faults@
    } else {
        failed == a.faults@.last() && b.faults@ == a.faults@.drop_last()
    }
}

/// Whether everything but the fault schedule is unchanged.
pub open spec fn same_core(a: Catalog, b: Catalog) -> bool {
    b == (Catalog { faults: b.faults, ..a })
}

impl Catalog {
    /// A catalog with no records and no injected faults.
    pub fn new() -> (r: Catalog)
        ensures
            r.kafka_topics@.len() == 0,
            r.query_pools@.len() == 0,
            r.sequencers@.len() == 0,
            r.namespaces@.len() == 0,
            r.tables@.len() == 0,
            r.partitions@.len() == 0,
            r.tombstones@.len() == 0,
            r.parquet_files@.len() == 0,
            r.processed_tombstones@.len() == 0,
            r.next_id == 1,
            r.faults@.len() == 0,
    {
        Catalog {
            kafka_topics: Vec::new(),
            query_pools: Vec::new(),
            sequencers: Vec::new(),
            namespaces: Vec::new(),
            tables: Vec::new(),
            partitions: Vec::new(),
            tombstones: Vec::new(),
            parquet_files: Vec::new(),
            processed_tombstones: Vec::new(),
            next_id: 1,
            faults: Vec::new(),
        }
    }

    /// Consumes one entry of the fault schedule.
    fn take_fault(&mut self) -> (failed: bool)
        ensures
            same_core(*old(self), *final(self)),
            fault_step(*old(self), *final(self), failed),
    {
        match self.faults.pop() {
            Option::Some(b) => b,
            Option::None => false,
        }
    }

    /// Allocates the next record identifier.
    fn allocate_id(&mut self) -> (r: Result<i64, CatalogError>)
        ensures
            match r {
                Ok(id) => {
                    &&& old(self).next_id < i64::MAX
                    &&& id == old(self).next_id
                    &&& *final(self) == (Catalog { next_id: (old(self).next_id + 1) as i64, ..*old(self) })
                },
                Err(e) => {
                    &&& e is IdSpaceExhausted
                    &&& old(self).next_id == i64::MAX
                    &&& *final(self) == *old(self)
                },
            },
    {
        if self.next_id == i64::MAX {
            return Err(CatalogError::IdSpaceExhausted);
        }
        let id = self.next_id;
        self.next_id = self.next_id + 1;
        Ok(id)
    }
}

/// Whether some topic of `s` is named `n`.
pub open spec fn has_topic(s: Seq<KafkaTopic>, n: Seq<char>) -> bool {
    exists|i: int| 0 <= i < s.len() && (#[trigger] s[i].name@) == n
}

/// Whether some query pool of `s` is named `n`.
pub open spec fn has_pool(s: Seq<QueryPool>, n: Seq<char>) -> bool {
    exists|i: int| 0 <= i < s.len() && (#[trigger] s[i].name@) == n
}

/// Whether some sequencer of `s` serves topic `t`, partition `p`.
pub open spec fn has_sequencer(s: Seq<Sequencer>, t: i64, p: i32) -> bool {
    exists|i: int|
        0 <= i < s.len() && (#[trigger] s[i].kafka_topic_id.0) == t && s[i].kafka_partition.0 == p
}

/// Whether some namespace of `s` is named `n`.
pub open spec fn has_namespace(s: Seq<Namespace>, n: Seq<char>) -> bool {
    exists|i: int| 0 <= i < s.len() && (#[trigger] s[i].name@) == n
}

/// Whether some table of `s` belongs to namespace `ns` under name `n`.
pub open spec fn has_table(s: Seq<Table>, ns: i64, n: Seq<char>) -> bool {
    exists|i: int| 0 <= i < s.len() && (#[trigger] s[i].namespace_id.0) == ns && s[i].name@ == n
}

/// Whether some partition of `s` has key `k` for sequencer `sq`, table `t`.
pub open spec fn has_partition(s: Seq<Partition>, k: Seq<char>, sq: i16, t: i64) -> bool {
    exists|i: int|
        0 <= i < s.len() && (#[trigger] s[i].partition_key@) == k && s[i].sequencer_id.0 == sq
            && s[i].table_id.0 == t
}

/// Whether some partition of `s` has identifier `id`.
pub open spec fn has_partition_id(s: Seq<Partition>, id: i64) -> bool {
    exists|i: int| 0 <= i < s.len() && (#[trigger] s[i].id.0) == id
}

/// Whether some tombstone of `s` is keyed by table `t`, sequencer `sq`,
/// sequence number `n`.
pub open spec fn has_tombstone(s: Seq<Tombstone>, t: i64, sq: i16, n: i64) -> bool {
    exists|i: int|
        0 <= i < s.len() && (#[trigger] s[i].table_id.0) == t && s[i].sequencer_id.0 == sq
            && s[i].sequence_number.0 == n
}

impl Catalog {
    /// Create-or-get of a kafka topic by name.
    #[verifier::loop_isolation(false)]
    pub fn kafka_topics_create_or_get(&mut self, name: &String) -> (r: Result<
        KafkaTopic,
        CatalogError,
    >)
        ensures
            match r {
                Ok(t) => {
                    &&& fault_step(*old(self), *final(self), false)
                    &&& t.name@ == name@
                    &&& if has_topic(old(self).kafka_topics@, name@) {
                        &&& same_core(*old(self), *final(self))
                        &&& exists|i: int|
                            0 <= i < old(self).kafka_topics@.len() && (#[trigger] old(
                                self,
                            ).kafka_topics@[i].name@) == name@ && t.id == old(
                                self,
                            ).kafka_topics@[i].id
                    } else {
                        &&& t.id.0 == old(self).next_id
                        &&& *final(self) == (Catalog {
                            kafka_topics: final(self).kafka_topics,
                            next_id: (old(self).next_id + 1) as i64,
                            faults: final(self).faults,
                            ..*old(self)
                        })
                        &&& final(self).kafka_topics@ == old(self).kafka_topics@.push(t)
                    }
                },
                Err(e) => {
                    &&& same_core(*old(self), *final(self))
                    &&& (e is Unavailable || (e is IdSpaceExhausted && old(self).next_id
                        == i64::MAX))
                    &&& (e is Unavailable ==> fault_step(*old(self), *final(self), true))
                },
            },
    {
        if self.take_fault() {
            return Err(CatalogError::Unavailable);
        }
        let n = self.kafka_topics.len();
        let mut i: usize = 0;
        while i < n
            invariant
                i <= n,
                n == self.kafka_topics@.len(),
                forall|p: int| 0 <= p < i ==> (#[trigger] self.kafka_topics@[p].name@) != name@,
            decreases n - i,
        {
            if self.kafka_topics[i].name == *name {
                let t = KafkaTopic { id: self.kafka_topics[i].id, name: self.kafka_topics[i].name.clone() };
                return Ok(t);
            }
            i += 1;
        }
        proof {
            if has_topic(self.kafka_topics@, name@) {
                let w = choose|w: int|
                    0 <= w < self.kafka_topics@.len() && (#[trigger] self.kafka_topics@[w].name@)
                        == name@;
                assert(self.kafka_topics@[w].name@ != name@);
            }
        }
        let id = match self.allocate_id() {
            Ok(id) => id,
            Err(e) => {
                return Err(e);
            },
        };
        let t = KafkaTopic { id: KafkaTopicId(id), name: name.clone() };
        let copy = KafkaTopic { id: t.id, name: t.name.clone() };
        self.kafka_topics.push(t);
        Ok(copy)
    }

    /// Create-or-get of a query pool by name.
    #[verifier::loop_isolation(false)]
    pub fn query_pools_create_or_get(&mut self, name: &String) -> (r: Result<
        QueryPool,
        CatalogError,
    >)
        ensures
            match r {
                Ok(t) => {
                    &&& fault_step(*old(self), *final(self), false)
                    &&& t.name@ == name@
                    &&& if has_pool(old(self).query_pools@, name@) {
                        &&& same_core(*old(self), *final(self))
                        &&& exists|i: int|
                            0 <= i < old(self).query_pools@.len() && (#[trigger] old(
                                self,
                            ).query_pools@[i].name@) == name@ && t.id == old(self).query_pools@[i].id
                    } else {
                        &&& t.id.0 == old(self).next_id
                        &&& *final(self) == (Catalog {
                            query_pools: final(self).query_pools,
                            next_id: (old(self).next_id + 1) as i64,
                            faults: final(self).faults,
                            ..*old(self)
                        })
                        &&& final(self).query_pools@ == old(self).query_pools@.push(t)
                    }
                },
                Err(e) => {
                    &&& same_core(*old(self), *final(self))
                    &&& (e is Unavailable || (e is IdSpaceExhausted && old(self).next_id
                        == i64::MAX))
                    &&& (e is Unavailable ==> fault_step(*old(self), *final(self), true))
                },
            },
    {
        if self.take_fault() {
            return Err(CatalogError::Unavailable);
        }
        let n = self.query_pools.len();
        let mut i: usize = 0;
        while i < n
            invariant
                i <= n,
                n == self.query_pools@.len(),
                forall|p: int| 0 <= p < i ==> (#[trigger] self.query_pools@[p].name@) != name@,
            decreases n - i,
        {
            if self.query_pools[i].name == *name {
                let t = QueryPool { id: self.query_pools[i].id, name: self.query_pools[i].name.clone() };
                return Ok(t);
            }
            i += 1;
        }
        proof {
            if has_pool(self.query_pools@, name@) {
                let w = choose|w: int|
                    0 <= w < self.query_pools@.len() && (#[trigger] self.query_pools@[w].name@)
                        == name@;
                assert(self.query_pools@[w].name@ != name@);
            }
        }
        let id = match self.allocate_id() {
            Ok(id) => id,
            Err(e) => {
                return Err(e);
            },
        };
        let t = QueryPool { id: QueryPoolId(id), name: name.clone() };
        let copy = QueryPool { id: t.id, name: t.name.clone() };
        self.query_pools.push(t);
        Ok(copy)
    }

    /// Create-or-get of a sequencer for one partition of one topic.
    #[verifier::loop_isolation(false)]
    pub fn sequencers_create_or_get(
        &mut self,
        topic: &KafkaTopic,
        kafka_partition: KafkaPartition,
    ) -> (r: Result<Sequencer, CatalogError>)
        ensures
            match r {
                Ok(s) => {
                    &&& fault_step(*old(self), *final(self), false)
                    &&& s.kafka_topic_id == topic.id
                    &&& s.kafka_partition == kafka_partition
                    &&& if has_sequencer(old(self).sequencers@, topic.id.0, kafka_partition.0) {
                        &&& same_core(*old(self), *final(self))
                        &&& old(self).sequencers@.contains(s)
                    } else {
                        &&& s.id == SequencerId(old(self).next_id as i16)
                        &&& *final(self) == (Catalog {
                            sequencers: final(self).sequencers,
                            next_id: (old(self).next_id + 1) as i64,
                            faults: final(self).faults,
                            ..*old(self)
                        })
                        &&& final(self).sequencers@ == old(self).sequencers@.push(s)
                    }
                },
                Err(e) => {
                    &&& same_core(*old(self), *final(self))
                    &&& (e is Unavailable || (e is IdSpaceExhausted && old(self).next_id
                        == i64::MAX))
                    &&& (e is Unavailable ==> fault_step(*old(self), *final(self), true))
                },
            },
    {
        if self.take_fault() {
            return Err(CatalogError::Unavailable);
        }
        let n = self.sequencers.len();
        let mut i: usize = 0;
        while i < n
            invariant
                i <= n,
                n == self.sequencers@.len(),
                forall|p: int|
                    0 <= p < i ==> !((#[trigger] self.sequencers@[p].kafka_topic_id.0)
                        == topic.id.0 && self.sequencers@[p].kafka_partition.0
                        == kafka_partition.0),
            decreases n - i,
        {
            if self.sequencers[i].kafka_topic_id.0 == topic.id.0
                && self.sequencers[i].kafka_partition.0 == kafka_partition.0 {
                return Ok(self.sequencers[i]);
            }
            i += 1;
        }
        proof {
            if has_sequencer(self.sequencers@, topic.id.0, kafka_partition.0) {
                let w = choose|w: int|
                    0 <= w < self.sequencers@.len() && (
                    #[trigger] self.sequencers@[w].kafka_topic_id.0) == topic.id.0
                        && self.sequencers@[w].kafka_partition.0 == kafka_partition.0;
                assert(self.sequencers@[w].kafka_partition.0 != kafka_partition.0
                    || self.sequencers@[w].kafka_topic_id.0 != topic.id.0);
            }
        }
        let id = match self.allocate_id() {
            Ok(id) => id,
            Err(e) => {
                return Err(e);
            },
        };
        let s = Sequencer {
            id: SequencerId(#[verifier::truncate] (id as i16)),
            kafka_topic_id: topic.id,
            kafka_partition,
        };
        self.sequencers.push(s);
        Ok(s)
    }

    /// Creates a namespace; namespaces must not already exist.
    #[verifier::loop_isolation(false)]
    pub fn namespaces_create(
        &mut self,
        name: &String,
        retention_duration: &String,
        kafka_topic_id: KafkaTopicId,
        query_pool_id: QueryPoolId,
    ) -> (r: Result<Namespace, CatalogError>)
        ensures
            match r {
                Ok(ns) => {
                    &&& fault_step(*old(self), *final(self), false)
                    &&& !has_namespace(old(self).namespaces@, name@)
                    &&& ns.name@ == name@
                    &&& ns.retention_duration@ == retention_duration@
                    &&& ns.kafka_topic_id == kafka_topic_id
                    &&& ns.query_pool_id == query_pool_id
                    &&& ns.id.0 == old(self).next_id
                    &&& *final(self) == (Catalog {
                        namespaces: final(self).namespaces,
                        next_id: (old(self).next_id + 1) as i64,
                        faults: final(self).faults,
                        ..*old(self)
                    })
                    &&& final(self).namespaces@ == old(self).namespaces@.push(ns)
                },
                Err(e) => {
                    &&& same_core(*old(self), *final(self))
                    &&& (e is Unavailable || (e is IdSpaceExhausted && old(self).next_id
                        == i64::MAX) || e is NameExists)
                    &&& (e is Unavailable ==> fault_step(*old(self), *final(self), true))
                    &&& (e is NameExists ==> has_namespace(old(self).namespaces@, name@))
                },
            },
    {
        if self.take_fault() {
            return Err(CatalogError::Unavailable);
        }
        let n = self.namespaces.len();
        let mut i: usize = 0;
        while i < n
            invariant
                i <= n,
                n == self.namespaces@.len(),
                forall|p: int| 0 <= p < i ==> (#[trigger] self.namespaces@[p].name@) != name@,
            decreases n - i,
        {
            if self.namespaces[i].name == *name {
                return Err(CatalogError::NameExists);
            }
            i += 1;
        }
        proof {
            if has_namespace(self.namespaces@, name@) {
                let w = choose|w: int|
                    0 <= w < self.namespaces@.len() && (#[trigger] self.namespaces@[w].name@)
                        == name@;
                assert(self.namespaces@[w].name@ != name@);
            }
        }
        let id = match self.allocate_id() {
            Ok(id) => id,
            Err(e) => {
                return Err(e);
            },
        };
        let ns = Namespace {
            id: NamespaceId(id),
            name: name.clone(),
            retention_duration: retention_duration.clone(),
            kafka_topic_id,
            query_pool_id,
        };
        let copy = Namespace {
            id: ns.id,
            name: ns.name.clone(),
            retention_duration: ns.retention_duration.clone(),
            kafka_topic_id: ns.kafka_topic_id,
            query_pool_id: ns.query_pool_id,
        };
        self.namespaces.push(ns);
        Ok(copy)
    }

    /// Looks a namespace up by name.
    #[verifier::loop_isolation(false)]
    pub fn namespaces_get_by_name(&mut self, name: &String) -> (r: Result<
        Option<Namespace>,
        CatalogError,
    >)
        ensures
            same_core(*old(self), *final(self)),
            match r {
                Ok(found) => {
                    &&& fault_step(*old(self), *final(self), false)
                    &&& match found {
                        Option::Some(ns) => old(self).namespaces@.contains(ns) && ns.name@
                            == name@,
                        Option::None => !has_namespace(old(self).namespaces@, name@),
                    }
                },
                Err(e) => e is Unavailable && fault_step(*old(self), *final(self), true),
            },
    {
        if self.take_fault() {
            return Err(CatalogError::Unavailable);
        }
        let n = self.namespaces.len();
        let mut i: usize = 0;
        while i < n
            invariant
                i <= n,
                n == self.namespaces@.len(),
                forall|p: int| 0 <= p < i ==> (#[trigger] self.namespaces@[p].name@) != name@,
            decreases n - i,
        {
            if self.namespaces[i].name == *name {
                let ns = Namespace {
                    id: self.namespaces[i].id,
                    name: self.namespaces[i].name.clone(),
                    retention_duration: self.namespaces[i].retention_duration.clone(),
                    kafka_topic_id: self.namespaces[i].kafka_topic_id,
                    query_pool_id: self.namespaces[i].query_pool_id,
                };
                return Ok(Option::Some(ns));
            }
            i += 1;
        }
        proof {
            if has_namespace(self.namespaces@, name@) {
                let w = choose|w: int|
                    0 <= w < self.namespaces@.len() && (#[trigger] self.namespaces@[w].name@)
                        == name@;
                assert(self.namespaces@[w].name@ != name@);
            }
        }
        Ok(Option::None)
    }

    /// Create-or-get of a table by name within a namespace.
    #[verifier::loop_isolation(false)]
    pub fn tables_create_or_get(&mut self, name: &String, namespace_id: NamespaceId) -> (r: Result<
        Table,
        CatalogError,
    >)
        ensures
            match r {
                Ok(t) => {
                    &&& fault_step(*old(self), *final(self), false)
                    &&& t.name@ == name@
                    &&& t.namespace_id == namespace_id
                    &&& if has_table(old(self).tables@, namespace_id.0, name@) {
                        &&& same_core(*old(self), *final(self))
                        &&& exists|i: int|
                            0 <= i < old(self).tables@.len() && (#[trigger] old(
                                self,
                            ).tables@[i].name@) == name@ && old(self).tables@[i].namespace_id
                                == namespace_id && t.id == old(self).tables@[i].id
                    } else {
                        &&& t.id.0 == old(self).next_id
                        &&& *final(self) == (Catalog {
                            tables: final(self).tables,
                            next_id: (old(self).next_id + 1) as i64,
                            faults: final(self).faults,
                            ..*old(self)
                        })
                        &&& final(self).tables@ == old(self).tables@.push(t)
                    }
                },
                Err(e) => {
                    &&& same_core(*old(self), *final(self))
                    &&& (e is Unavailable || (e is IdSpaceExhausted && old(self).next_id
                        == i64::MAX))
                    &&& (e is Unavailable ==> fault_step(*old(self), *final(self), true))
                },
            },
    {
        if self.take_fault() {
            return Err(CatalogError::Unavailable);
        }
        let n = self.tables.len();
        let mut i: usize = 0;
        while i < n
            invariant
                i <= n,
                n == self.tables@.len(),
                forall|p: int|
                    0 <= p < i ==> !((#[trigger] self.tables@[p].namespace_id.0) == namespace_id.0
                        && self.tables@[p].name@ == name@),
            decreases n - i,
        {
            if self.tables[i].namespace_id.0 == namespace_id.0 && self.tables[i].name == *name {
                let t = Table {
                    id: self.tables[i].id,
                    namespace_id: self.tables[i].namespace_id,
                    name: self.tables[i].name.clone(),
                };
                return Ok(t);
            }
            i += 1;
        }
        proof {
            if has_table(self.tables@, namespace_id.0, name@) {
                let w = choose|w: int|
                    0 <= w < self.tables@.len() && (#[trigger] self.tables@[w].namespace_id.0)
                        == namespace_id.0 && self.tables@[w].name@ == name@;
                assert(!(self.tables@[w].namespace_id.0 == namespace_id.0
                    && self.tables@[w].name@ == name@));
            }
        }
        let id = match self.allocate_id() {
            Ok(id) => id,
            Err(e) => {
                return Err(e);
            },
        };
        let t = Table { id: TableId(id), namespace_id, name: name.clone() };
        let copy = Table { id: t.id, namespace_id: t.namespace_id, name: t.name.clone() };
        self.tables.push(t);
        Ok(copy)
    }

    /// Create-or-get of a partition by key, sequencer and table.
    #[verifier::loop_isolation(false)]
    pub fn partitions_create_or_get(
        &mut self,
        partition_key: &String,
        sequencer_id: SequencerId,
        table_id: TableId,
    ) -> (r: Result<Partition, CatalogError>)
        ensures
            match r {
                Ok(p) => {
                    &&& fault_step(*old(self), *final(self), false)
                    &&& p.partition_key@ == partition_key@
                    &&& p.sequencer_id == sequencer_id
                    &&& p.table_id == table_id
                    &&& if has_partition(
                        old(self).partitions@,
                        partition_key@,
                        sequencer_id.0,
                        table_id.0,
                    ) {
                        &&& same_core(*old(self), *final(self))
                        &&& exists|i: int|
                            0 <= i < old(self).partitions@.len() && (#[trigger] old(
                                self,
                            ).partitions@[i].partition_key@) == partition_key@ && old(
                                self,
                            ).partitions@[i].sequencer_id == sequencer_id && old(
                                self,
                            ).partitions@[i].table_id == table_id && p.id == old(
                                self,
                            ).partitions@[i].id
                    } else {
                        &&& p.id.0 == old(self).next_id
                        &&& *final(self) == (Catalog {
                            partitions: final(self).partitions,
                            next_id: (old(self).next_id + 1) as i64,
                            faults: final(self).faults,
                            ..*old(self)
                        })
                        &&& final(self).partitions@ == old(self).partitions@.push(p)
                    }
                },
                Err(e) => {
                    &&& same_core(*old(self), *final(self))
                    &&& (e is Unavailable || (e is IdSpaceExhausted && old(self).next_id
                        == i64::MAX))
                    &&& (e is Unavailable ==> fault_step(*old(self), *final(self), true))
                },
            },
    {
        if self.take_fault() {
            return Err(CatalogError::Unavailable);
        }
        let n = self.partitions.len();
        let mut i: usize = 0;
        while i < n
            invariant
                i <= n,
                n == self.partitions@.len(),
                forall|p: int|
                    0 <= p < i ==> !((#[trigger] self.partitions@[p].partition_key@)
                        == partition_key@ && self.partitions@[p].sequencer_id.0 == sequencer_id.0
                        && self.partitions@[p].table_id.0 == table_id.0),
            decreases n - i,
        {
            if self.partitions[i].sequencer_id.0 == sequencer_id.0 && self.partitions[i].table_id.0
                == table_id.0 && self.partitions[i].partition_key == *partition_key {
                let p = Partition {
                    id: self.partitions[i].id,
                    sequencer_id: self.partitions[i].sequencer_id,
                    table_id: self.partitions[i].table_id,
                    partition_key: self.partitions[i].partition_key.clone(),
                };
                return Ok(p);
            }
            i += 1;
        }
        proof {
            if has_partition(self.partitions@, partition_key@, sequencer_id.0, table_id.0) {
                let w = choose|w: int|
                    0 <= w < self.partitions@.len() && (
                    #[trigger] self.partitions@[w].partition_key@) == partition_key@
                        && self.partitions@[w].sequencer_id.0 == sequencer_id.0
                        && self.partitions@[w].table_id.0 == table_id.0;
                assert(!(self.partitions@[w].partition_key@ == partition_key@
                    && self.partitions@[w].sequencer_id.0 == sequencer_id.0
                    && self.partitions@[w].table_id.0 == table_id.0));
            }
        }
        let id = match self.allocate_id() {
            Ok(id) => id,
            Err(e) => {
                return Err(e);
            },
        };
        let p = Partition {
            id: PartitionId(id),
            sequencer_id,
            table_id,
            partition_key: partition_key.clone(),
        };
        let copy = Partition {
            id: p.id,
            sequencer_id: p.sequencer_id,
            table_id: p.table_id,
            partition_key: p.partition_key.clone(),
        };
        self.partitions.push(p);
        Ok(copy)
    }
}

/// The index of the partition of `s` with identifier `id`.
pub open spec fn partition_idx(s: Seq<Partition>, id: i64) -> int {
    choose|i: int| 0 <= i < s.len() && (#[trigger] s[i].id.0) == id
}

/// Whether some table of `s` has identifier `id`.
pub open spec fn has_table_id(s: Seq<Table>, id: i64) -> bool {
    exists|i: int| 0 <= i < s.len() && (#[trigger] s[i].id.0) == id
}

/// The index of the table of `s` with identifier `id`.
pub open spec fn table_idx(s: Seq<Table>, id: i64) -> int {
    choose|i: int| 0 <= i < s.len() && (#[trigger] s[i].id.0) == id
}

/// Whether some namespace of `s` has identifier `id`.
pub open spec fn has_namespace_id(s: Seq<Namespace>, id: i64) -> bool {
    exists|i: int| 0 <= i < s.len() && (#[trigger] s[i].id.0) == id
}

/// The index of the namespace of `s` with identifier `id`.
pub open spec fn namespace_idx(s: Seq<Namespace>, id: i64) -> int {
    choose|i: int| 0 <= i < s.len() && (#[trigger] s[i].id.0) == id
}

impl Catalog {
    /// The partition record with the given identifier, if any.
    #[verifier::loop_isolation(false)]
    fn find_partition_by_id(&self, id: i64) -> (r: Option<Partition>)
        ensures
            match r {
                Option::Some(p) => p.id.0 == id && exists|i: int|
                    0 <= i < self.partitions@.len() && (#[trigger] self.partitions@[i].id.0) == id
                        && p.id == self.partitions@[i].id && p.sequencer_id
                        == self.partitions@[i].sequencer_id && p.table_id
                        == self.partitions@[i].table_id && p.partition_key@
                        == self.partitions@[i].partition_key@,
                Option::None => !has_partition_id(self.partitions@, id),
            },
    {
        let n = self.partitions.len();
        let mut i: usize = 0;
        while i < n
            invariant
                i <= n,
                n == self.partitions@.len(),
                forall|p: int| 0 <= p < i ==> (#[trigger] self.partitions@[p].id.0) != id,
            decreases n - i,
        {
            if self.partitions[i].id.0 == id {
                return Option::Some(
                    Partition {
                        id: self.partitions[i].id,
                        sequencer_id: self.partitions[i].sequencer_id,
                        table_id: self.partitions[i].table_id,
                        partition_key: self.partitions[i].partition_key.clone(),
                    },
                );
            }
            i += 1;
        }
        proof {
            if has_partition_id(self.partitions@, id) {
                let w = choose|w: int|
                    0 <= w < self.partitions@.len() && (#[trigger] self.partitions@[w].id.0) == id;
                assert(self.partitions@[w].id.0 != id);
            }
        }
        Option::None
    }

    /// The table record with the given identifier, if any.
    #[verifier::loop_isolation(false)]
    fn find_table_by_id(&self, id: i64) -> (r: Option<Table>)
        ensures
            match r {
                Option::Some(t) => t.id.0 == id && exists|i: int|
                    0 <= i < self.tables@.len() && (#[trigger] self.tables@[i].id.0) == id && t.id
                        == self.tables@[i].id && t.namespace_id == self.tables@[i].namespace_id
                        && t.name@ == self.tables@[i].name@,
                Option::None => !has_table_id(self.tables@, id),
            },
    {
        let n = self.tables.len();
        let mut i: usize = 0;
        while i < n
            invariant
                i <= n,
                n == self.tables@.len(),
                forall|p: int| 0 <= p < i ==> (#[trigger] self.tables@[p].id.0) != id,
            decreases n - i,
        {
            if self.tables[i].id.0 == id {
                return Option::Some(
                    Table {
                        id: self.tables[i].id,
                        namespace_id: self.tables[i].namespace_id,
                        name: self.tables[i].name.clone(),
                    },
                );
            }
            i += 1;
        }
        proof {
            if has_table_id(self.tables@, id) {
                let w = choose|w: int|
                    0 <= w < self.tables@.len() && (#[trigger] self.tables@[w].id.0) == id;
                assert(self.tables@[w].id.0 != id);
            }
        }
        Option::None
    }

    /// The namespace record with the given identifier, if any.
    #[verifier::loop_isolation(false)]
    fn find_namespace_by_id(&self, id: i64) -> (r: Option<Namespace>)
        ensures
            match r {
                Option::Some(ns) => ns.id.0 == id && exists|i: int|
                    0 <= i < self.namespaces@.len() && (#[trigger] self.namespaces@[i].id.0) == id
                        && ns.id == self.namespaces@[i].id && ns.name@
                        == self.namespaces@[i].name@,
                Option::None => !has_namespace_id(self.namespaces@, id),
            },
    {
        let n = self.namespaces.len();
        let mut i: usize = 0;
        while i < n
            invariant
                i <= n,
                n == self.namespaces@.len(),
                forall|p: int| 0 <= p < i ==> (#[trigger] self.namespaces@[p].id.0) != id,
            decreases n - i,
        {
            if self.namespaces[i].id.0 == id {
                return Option::Some(
                    Namespace {
                        id: self.namespaces[i].id,
                        name: self.namespaces[i].name.clone(),
                        retention_duration: self.namespaces[i].retention_duration.clone(),
                        kafka_topic_id: self.namespaces[i].kafka_topic_id,
                        query_pool_id: self.namespaces[i].query_pool_id,
                    },
                );
            }
            i += 1;
        }
        proof {
            if has_namespace_id(self.namespaces@, id) {
                let w = choose|w: int|
                    0 <= w < self.namespaces@.len() && (#[trigger] self.namespaces@[w].id.0) == id;
                assert(self.namespaces@[w].id.0 != id);
            }
        }
        Option::None
    }

    /// Looks up a partition by id, joined with its table's and namespace's
    /// names.  `None` when the partition, its table or its namespace is
    /// absent.
    pub fn partition_info_by_id(&mut self, partition_id: PartitionId) -> (r: Result<
        Option<PartitionInfo>,
        CatalogError,
    >)
        ensures
            same_core(*old(self), *final(self)),
            match r {
                Ok(found) => {
                    &&& fault_step(*old(self), *final(self), false)
                    &&& match found {
                        Option::Some(info) => {
                            &&& info.partition.id == partition_id
                            &&& has_partition_id(old(self).partitions@, partition_id.0)
                            &&& exists|i: int|
                                0 <= i < old(self).partitions@.len() && (#[trigger] old(
                                    self,
                                ).partitions@[i].id.0) == partition_id.0 && info.partition.sequencer_id
                                    == old(self).partitions@[i].sequencer_id
                                    && info.partition.table_id == old(self).partitions@[i].table_id
                                    && info.partition.partition_key@ == old(
                                    self,
                                ).partitions@[i].partition_key@
                            &&& exists|i: int, j: int|
                                0 <= i < old(self).namespaces@.len() && 0 <= j < old(
                                    self,
                                ).tables@.len() && (#[trigger] old(self).tables@[j].id.0)
                                    == info.partition.table_id.0 && info.table_name@ == old(
                                    self,
                                ).tables@[j].name@ && (#[trigger] old(self).namespaces@[i].id.0)
                                    == old(self).tables@[j].namespace_id.0 && info.namespace_name@
                                    == old(self).namespaces@[i].name@
                        },
                        // `None` only when the join fails: the partition is
                        // unknown, or its table, or that table's namespace
                        Option::None => !has_partition_id(old(self).partitions@, partition_id.0)
                            || (exists|i: int|
                            0 <= i < old(self).partitions@.len() && (#[trigger] old(
                                self,
                            ).partitions@[i].id.0) == partition_id.0 && !has_table_id(
                                old(self).tables@,
                                old(self).partitions@[i].table_id.0,
                            )) || (exists|i: int, j: int|
                            0 <= i < old(self).partitions@.len() && 0 <= j < old(
                                self,
                            ).tables@.len() && (#[trigger] old(self).partitions@[i].id.0)
                                == partition_id.0 && (#[trigger] old(self).tables@[j].id.0) == old(
                                self,
                            ).partitions@[i].table_id.0 && !has_namespace_id(
                                old(self).namespaces@,
                                old(self).tables@[j].namespace_id.0,
                            )),
                    }
                },
                Err(e) => e is Unavailable && fault_step(*old(self), *final(self), true),
            },
    {
        if self.take_fault() {
            return Err(CatalogError::Unavailable);
        }
        let part = match self.find_partition_by_id(partition_id.0) {
            Option::Some(p) => p,
            Option::None => {
                return Ok(Option::None);
            },
        };
        let table = match self.find_table_by_id(part.table_id.0) {
            Option::Some(t) => t,
            Option::None => {
                return Ok(Option::None);
            },
        };
        let ns = match self.find_namespace_by_id(table.namespace_id.0) {
            Option::Some(ns) => ns,
            Option::None => {
                return Ok(Option::None);
            },
        };
        Ok(
            Option::Some(
                PartitionInfo {
                    partition: part,
                    namespace_name: ns.name,
                    table_name: table.name,
                },
            ),
        )
    }

    /// Create-or-get of a tombstone keyed by table, sequencer and sequence
    /// number.
    #[verifier::loop_isolation(false)]
    pub fn tombstones_create_or_get(
        &mut self,
        table_id: TableId,
        sequencer_id: SequencerId,
        sequence_number: SequenceNumber,
        min_time: Timestamp,
        max_time: Timestamp,
        predicate: &DeletePredicate,
    ) -> (r: Result<Tombstone, CatalogError>)
        ensures
            match r {
                Ok(t) => {
                    &&& fault_step(*old(self), *final(self), false)
                    &&& t.table_id == table_id
                    &&& t.sequencer_id == sequencer_id
                    &&& t.sequence_number == sequence_number
                    &&& if has_tombstone(
                        old(self).tombstones@,
                        table_id.0,
                        sequencer_id.0,
                        sequence_number.0,
                    ) {
                        &&& same_core(*old(self), *final(self))
                        &&& exists|i: int|
                            0 <= i < old(self).tombstones@.len() && (#[trigger] old(
                                self,
                            ).tombstones@[i].table_id.0) == table_id.0 && old(
                                self,
                            ).tombstones@[i].sequencer_id.0 == sequencer_id.0 && old(
                                self,
                            ).tombstones@[i].sequence_number.0 == sequence_number.0 && tomb_v(t)
                                == tomb_v(old(self).tombstones@[i])
                    } else {
                        &&& t.id.0 == old(self).next_id
                        &&& t.min_time == min_time
                        &&& t.max_time == max_time
                        &&& crate::delete::pred_v(t.predicate) == crate::delete::pred_v(*predicate)
                        &&& *final(self) == (Catalog {
                            tombstones: final(self).tombstones,
                            next_id: (old(self).next_id + 1) as i64,
                            faults: final(self).faults,
                            ..*old(self)
                        })
                        &&& final(self).tombstones@.len() == old(self).tombstones@.len() + 1
                        &&& final(self).tombstones@.drop_last() == old(self).tombstones@
                        &&& tomb_v(final(self).tombstones@.last()) == tomb_v(t)
                    }
                },
                Err(e) => {
                    &&& same_core(*old(self), *final(self))
                    &&& (e is Unavailable || (e is IdSpaceExhausted && old(self).next_id
                        == i64::MAX))
                    &&& (e is Unavailable ==> fault_step(*old(self), *final(self), true))
                },
            },
    {
        if self.take_fault() {
            return Err(CatalogError::Unavailable);
        }
        let n = self.tombstones.len();
        let mut i: usize = 0;
        while i < n
            invariant
                i <= n,
                n == self.tombstones@.len(),
                forall|p: int|
                    0 <= p < i ==> !((#[trigger] self.tombstones@[p].table_id.0) == table_id.0
                        && self.tombstones@[p].sequencer_id.0 == sequencer_id.0
                        && self.tombstones@[p].sequence_number.0 == sequence_number.0),
            decreases n - i,
        {
            if self.tombstones[i].table_id.0 == table_id.0 && self.tombstones[i].sequencer_id.0
                == sequencer_id.0 && self.tombstones[i].sequence_number.0 == sequence_number.0 {
                let t = clone_tombstone(&self.tombstones[i]);
                return Ok(t);
            }
            i += 1;
        }
        proof {
            if has_tombstone(self.tombstones@, table_id.0, sequencer_id.0, sequence_number.0) {
                let w = choose|w: int|
                    0 <= w < self.tombstones@.len() && (#[trigger] self.tombstones@[w].table_id.0)
                        == table_id.0 && self.tombstones@[w].sequencer_id.0 == sequencer_id.0
                        && self.tombstones@[w].sequence_number.0 == sequence_number.0;
                assert(!(self.tombstones@[w].table_id.0 == table_id.0
                    && self.tombstones@[w].sequencer_id.0 == sequencer_id.0
                    && self.tombstones@[w].sequence_number.0 == sequence_number.0));
            }
        }
        let id = match self.allocate_id() {
            Ok(id) => id,
            Err(e) => {
                return Err(e);
            },
        };
        let t = Tombstone {
            id: TombstoneId(id),
            table_id,
            sequencer_id,
            sequence_number,
            min_time,
            max_time,
            predicate: clone_predicate(predicate),
        };
        let copy = clone_tombstone(&t);
        self.tombstones.push(t);
        Ok(copy)
    }

    /// Opens a transaction.  Changes buffered in it land only on commit.
    pub fn start_transaction(&mut self) -> (r: Result<CatalogTransaction, CatalogError>)
        ensures
            same_core(*old(self), *final(self)),
            match r {
                Ok(txn) => {
                    &&& fault_step(*old(self), *final(self), false)
                    &&& txn.parquet_file is None
                    &&& txn.tombstone_ids@.len() == 0
                },
                Err(e) => e is Unavailable && fault_step(*old(self), *final(self), true),
            },
    {
        if self.take_fault() {
            return Err(CatalogError::Unavailable);
        }
        Ok(CatalogTransaction { parquet_file: Option::None, tombstone_ids: Vec::new() })
    }

    /// Stages one persisted-file record and the tombstones applied to it
    /// inside an open transaction.
    #[verifier::loop_isolation(false)]
    pub fn add_parquet_file_with_tombstones(
        &mut self,
        file: &ParquetFileParams,
        tombstones: &Vec<Tombstone>,
        txn: &mut CatalogTransaction,
    ) -> (r: Result<(), CatalogError>)
        ensures
            same_core(*old(self), *final(self)),
            match r {
                Ok(_) => {
                    &&& fault_step(*old(self), *final(self), false)
                    &&& final(txn).parquet_file == Option::Some(*file)
                    &&& final(txn).tombstone_ids@ == old(txn).tombstone_ids@ + tombstones@.map(
                        |i: int, t: Tombstone| t.id,
                    )
                },
                Err(e) => {
                    &&& e is Unavailable
                    &&& fault_step(*old(self), *final(self), true)
                    &&& *final(txn) == *old(txn)
                },
            },
    {
        if self.take_fault() {
            return Err(CatalogError::Unavailable);
        }
        txn.parquet_file = Option::Some(*file);
        let n = tombstones.len();
        let mut i: usize = 0;
        while i < n
            invariant
                i <= n,
                n == tombstones@.len(),
                txn.parquet_file == Option::Some(*file),
                txn.tombstone_ids@ == old(txn).tombstone_ids@ + tombstones@.take(i as int).map(
                    |k: int, t: Tombstone| t.id,
                ),
            decreases n - i,
        {
            let id = tombstones[i].id;
            txn.tombstone_ids.push(id);
            proof {
                assert(tombstones@.take(i as int + 1).map(|k: int, t: Tombstone| t.id)
                    =~= tombstones@.take(i as int).map(|k: int, t: Tombstone| t.id).push(
                    tombstones@[i as int].id,
                ));
            }
            i += 1;
        }
        proof {
            assert(tombstones@.take(n as int) =~= tombstones@);
        }
        Ok(())
    }

    /// Commits a transaction: its staged file record, if any, is appended
    /// with a fresh identifier, and the applied tombstones are linked to
    /// it.  On failure nothing lands and the transaction is gone; callers
    /// retry the whole transaction.
    #[verifier::loop_isolation(false)]
    pub fn commit_txn(&mut self, txn: CatalogTransaction) -> (r: Result<(), CatalogError>)
        ensures
            match r {
                Ok(_) => {
                    &&& fault_step(*old(self), *final(self), false)
                    &&& match txn.parquet_file {
                        Option::Some(f) => {
                            &&& old(self).next_id < i64::MAX
                            &&& *final(self) == (Catalog {
                                parquet_files: final(self).parquet_files,
                                processed_tombstones: final(self).processed_tombstones,
                                next_id: (old(self).next_id + 1) as i64,
                                faults: final(self).faults,
                                ..*old(self)
                            })
                            &&& final(self).parquet_files@ == old(self).parquet_files@.push(
                                ParquetFileRecord {
                                    id: old(self).next_id,
                                    sequencer_id: f.sequencer_id,
                                    table_id: f.table_id,
                                    partition_id: f.partition_id,
                                    object_store_id: f.object_store_id,
                                    min_sequence_number: f.min_sequence_number,
                                    max_sequence_number: f.max_sequence_number,
                                    min_time: f.min_time,
                                    max_time: f.max_time,
                                    row_count: f.row_count,
                                    to_delete: false,
                                },
                            )
                            &&& final(self).processed_tombstones@ == old(
                                self,
                            ).processed_tombstones@ + txn.tombstone_ids@.map(
                                |i: int, t: TombstoneId| (old(self).next_id, t),
                            )
                        },
                        Option::None => same_core(*old(self), *final(self)),
                    }
                },
                Err(e) => {
                    &&& same_core(*old(self), *final(self))
                    &&& (e is Unavailable || (e is IdSpaceExhausted && old(self).next_id
                        == i64::MAX))
                    &&& (e is Unavailable ==> fault_step(*old(self), *final(self), true))
                },
            },
    {
        if self.take_fault() {
            return Err(CatalogError::Unavailable);
        }
        let file = match txn.parquet_file {
            Option::Some(f) => f,
            Option::None => {
                return Ok(());
            },
        };
        let id = match self.allocate_id() {
            Ok(id) => id,
            Err(e) => {
                return Err(e);
            },
        };
        let record = ParquetFileRecord {
            id,
            sequencer_id: file.sequencer_id,
            table_id: file.table_id,
            partition_id: file.partition_id,
            object_store_id: file.object_store_id,
            min_sequence_number: file.min_sequence_number,
            max_sequence_number: file.max_sequence_number,
            min_time: file.min_time,
            max_time: file.max_time,
            row_count: file.row_count,
            to_delete: false,
        };
        self.parquet_files.push(record);
        let ghost mid = *self;
        let n = txn.tombstone_ids.len();
        let mut i: usize = 0;
        while i < n
            invariant
                i <= n,
                n == txn.tombstone_ids@.len(),
                *self == (Catalog { processed_tombstones: self.processed_tombstones, ..mid }),
                self.processed_tombstones@ == mid.processed_tombstones@
                    + txn.tombstone_ids@.take(i as int).map(|k: int, t: TombstoneId| (id, t)),
            decreases n - i,
        {
            let t = txn.tombstone_ids[i];
            self.processed_tombstones.push((id, t));
            proof {
                assert(txn.tombstone_ids@.take(i as int + 1).map(
                    |k: int, t: TombstoneId| (id, t),
                ) =~= txn.tombstone_ids@.take(i as int).map(|k: int, t: TombstoneId| (id, t)).push(
                    (id, txn.tombstone_ids@[i as int]),
                ));
            }
            i += 1;
        }
        proof {
            assert(txn.tombstone_ids@.take(n as int) =~= txn.tombstone_ids@);
        }
        Ok(())
    }

    /// The persisted-file records of one sequencer with a sequence range
    /// beyond the given number.
    #[verifier::loop_isolation(false)]
    pub fn parquet_files_by_sequencer_greater_than(
        &self,
        sequencer_id: SequencerId,
        sequence_number: SequenceNumber,
    ) -> (r: Vec<ParquetFileRecord>)
        ensures
            r@ == self.parquet_files@.filter(
                |f: ParquetFileRecord|
                    f.sequencer_id.0 == sequencer_id.0 && f.max_sequence_number.0
                        > sequence_number.0,
            ),
    {
        let mut out: Vec<ParquetFileRecord> = Vec::new();
        let n = self.parquet_files.len();
        let mut i: usize = 0;
        while i < n
            invariant
                i <= n,
                n == self.parquet_files@.len(),
                out@ == self.parquet_files@.take(i as int).filter(
                    |f: ParquetFileRecord|
                        f.sequencer_id.0 == sequencer_id.0 && f.max_sequence_number.0
                            > sequence_number.0,
                ),
            decreases n - i,
        {
            let f = self.parquet_files[i];
            proof {
                assert(self.parquet_files@.take(i as int + 1).drop_last() =~= self.parquet_files@.take(
                    i as int,
                ));
                reveal(Seq::filter);
            }
            if f.sequencer_id.0 == sequencer_id.0 && f.max_sequence_number.0 > sequence_number.0 {
                out.push(f);
            }
            i += 1;
        }
        proof {
            assert(self.parquet_files@.take(n as int) =~= self.parquet_files@);
        }
        out
    }
}

} // verus!
