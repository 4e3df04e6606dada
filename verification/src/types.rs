//! Identifier newtypes shared across the buffering tree and the catalog.

use vstd::prelude::*;

verus! {

/// Identifier of a sequencer (one ordered stream of operations).
#[derive(Debug, Clone, Copy, PartialEq, Eq, Structural)]
pub struct SequencerId(pub i16);

impl SequencerId {
    pub fn new(v: i16) -> (r: Self)
        ensures
            r.0 == v,
    {
        SequencerId(v)
    }

    pub fn get(&self) -> (r: i16)
        ensures
            r == self.0,
    {
        self.0
    }
}

/// Identifier of a kafka partition backing a sequencer.
#[derive(Debug, Clone, Copy, PartialEq, Eq, Structural)]
pub struct KafkaPartition(pub i32);

impl KafkaPartition {
    pub fn new(v: i32) -> (r: Self)
        ensures
            r.0 == v,
    {
        KafkaPartition(v)
    }

    pub fn get(&self) -> (r: i32)
        ensures
            r == self.0,
    {
        self.0
    }
}

/// Identifier of a namespace in the catalog.
#[derive(Debug, Clone, Copy, PartialEq, Eq, Structural)]
pub struct NamespaceId(pub i64);

impl NamespaceId {
    pub fn new(v: i64) -> (r: Self)
        ensures
            r.0 == v,
    {
        NamespaceId(v)
    }

    pub fn get(&self) -> (r: i64)
        ensures
            r == self.0,
    {
        self.0
    }
}

/// Identifier of a table in the catalog.
#[derive(Debug, Clone, Copy, PartialEq, Eq, Structural)]
pub struct TableId(pub i64);

impl TableId {
    pub fn new(v: i64) -> (r: Self)
        ensures
            r.0 == v,
    {
        TableId(v)
    }

    pub fn get(&self) -> (r: i64)
        ensures
            r == self.0,
    {
        self.0
    }
}

/// Identifier of a time-partition of a table in the catalog.
#[derive(Debug, Clone, Copy, PartialEq, Eq, Structural)]
pub struct PartitionId(pub i64);

impl PartitionId {
    pub fn new(v: i64) -> (r: Self)
        ensures
            r.0 == v,
    {
        PartitionId(v)
    }

    pub fn get(&self) -> (r: i64)
        ensures
            r == self.0,
    {
        self.0
    }
}

/// Position of an operation within its sequencer's stream.
#[derive(Debug, Clone, Copy, PartialEq, Eq, Structural)]
pub struct SequenceNumber(pub i64);

impl SequenceNumber {
    pub fn new(v: i64) -> (r: Self)
        ensures
            r.0 == v,
    {
        SequenceNumber(v)
    }

    pub fn get(&self) -> (r: i64)
        ensures
            r == self.0,
    {
        self.0
    }
}

/// A point in time, in nanoseconds since the epoch.
#[derive(Debug, Clone, Copy, PartialEq, Eq, Structural)]
pub struct Timestamp(pub i64);

impl Timestamp {
    pub fn new(v: i64) -> (r: Self)
        ensures
            r.0 == v,
    {
        Timestamp(v)
    }

    pub fn get(&self) -> (r: i64)
        ensures
            r == self.0,
    {
        self.0
    }
}

/// Identifier of a kafka topic in the catalog.
#[derive(Debug, Clone, Copy, PartialEq, Eq, Structural)]
pub struct KafkaTopicId(pub i64);

impl KafkaTopicId {
    pub fn new(v: i64) -> (r: Self)
        ensures
            r.0 == v,
    {
        KafkaTopicId(v)
    }

    pub fn get(&self) -> (r: i64)
        ensures
            r == self.0,
    {
        self.0
    }
}

/// Identifier of a query pool in the catalog.
#[derive(Debug, Clone, Copy, PartialEq, Eq, Structural)]
pub struct QueryPoolId(pub i64);

impl QueryPoolId {
    pub fn new(v: i64) -> (r: Self)
        ensures
            r.0 == v,
    {
        QueryPoolId(v)
    }

    pub fn get(&self) -> (r: i64)
        ensures
            r == self.0,
    {
        self.0
    }
}

/// Identifier of a tombstone record in the catalog.
#[derive(Debug, Clone, Copy, PartialEq, Eq, Structural)]
pub struct TombstoneId(pub i64);

impl TombstoneId {
    pub fn new(v: i64) -> (r: Self)
        ensures
            r.0 == v,
    {
        TombstoneId(v)
    }

    pub fn get(&self) -> (r: i64)
        ensures
            r == self.0,
    {
        self.0
    }
}

} // verus!
