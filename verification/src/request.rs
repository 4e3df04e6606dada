//! Query requests and responses exchanged with the query-serving
//! collaborator, and their wire form.

use crate::batch::Batch;
use crate::batch::ColType;
use crate::delete::DeletePredicate;
use crate::delete::TimestampRange;
use crate::types::SequenceNumber;
use crate::types::SequencerId;
use vstd::prelude::*;

verus! {

/// A filter the query service attaches to a request: column-name
/// expressions plus optional field, partition and time-range scopes.
#[derive(Debug, Clone, PartialEq)]
pub struct Predicate {
    pub field_columns: Option<Vec<String>>,
    pub partition_key: Option<String>,
    pub range: Option<TimestampRange>,
    pub exprs: Vec<String>,
}

/// The wire form of a predicate: absent options are empty lists.
#[derive(Debug, Clone, PartialEq)]
pub struct WirePredicate {
    pub exprs: Vec<String>,
    pub field_columns: Vec<String>,
    pub partition_key: Option<String>,
    pub range: Option<TimestampRange>,
}

/// The wire form of a query request: the sequencer id still untyped.
#[derive(Debug, Clone, PartialEq)]
pub struct WireQueryRequest {
    pub namespace: String,
    pub sequencer_id: i32,
    pub table: String,
    pub columns: Vec<String>,
    pub min_time: i64,
    pub max_time: i64,
    pub predicate: Option<WirePredicate>,
    pub greater_than_sequence_number: Option<u64>,
}

/// A malformed wire value, naming the field at fault.
#[derive(Debug, Clone, PartialEq)]
pub struct FieldViolation {
    pub field: String,
}

/// What the query service asks of the buffer: a table of a namespace on
/// one sequencer, a column set, a time range, and optional filters.
#[derive(Debug, Clone, PartialEq)]
pub struct IngesterQueryRequest {
    pub namespace: String,
    pub sequencer_id: SequencerId,
    pub table: String,
    pub columns: Vec<String>,
    pub min_time: i64,
    pub max_time: i64,
    pub predicate: Option<Predicate>,
    pub greater_than_sequence_number: Option<u64>,
}

impl IngesterQueryRequest {
    /// Assembles a request.
    pub fn new(
        namespace: String,
        sequencer_id: SequencerId,
        table: String,
        columns: Vec<String>,
        min_time: i64,
        max_time: i64,
        predicate: Option<Predicate>,
        greater_than_sequence_number: Option<u64>,
    ) -> (r: Self)
        ensures
            r == (IngesterQueryRequest {
                namespace,
                sequencer_id,
                table,
                columns,
                min_time,
                max_time,
                predicate,
                greater_than_sequence_number,
            }),
    {
        IngesterQueryRequest {
            namespace,
            sequencer_id,
            table,
            columns,
            min_time,
            max_time,
            predicate,
            greater_than_sequence_number,
        }
    }

    /// Reads a request off the wire.  The sequencer id must fit its
    /// in-memory width; everything else carries over, with an empty
    /// field-column list standing for "no field scope".
    pub fn try_from(wire: WireQueryRequest) -> (r: Result<Self, FieldViolation>)
        ensures
            match r {
                Ok(q) => {
                    &&& i16::MIN <= wire.sequencer_id <= i16::MAX
                    &&& q.namespace == wire.namespace
                    &&& q.sequencer_id.0 == wire.sequencer_id
                    &&& q.table == wire.table
                    &&& q.columns == wire.columns
                    &&& q.min_time == wire.min_time
                    &&& q.max_time == wire.max_time
                    &&& q.greater_than_sequence_number == wire.greater_than_sequence_number
                    &&& match (q.predicate, wire.predicate) {
                        (Option::Some(p), Option::Some(wp)) => {
                            &&& p.exprs == wp.exprs
                            &&& p.partition_key == wp.partition_key
                            &&& p.range == wp.range
                            &&& (wp.field_columns@.len() == 0 <==> p.field_columns is None)
                            &&& (p.field_columns matches Option::Some(fc) ==> fc
                                == wp.field_columns)
                        },
                        (Option::None, Option::None) => true,
                        _ => false,
                    }
                },
                Err(v) => {
                    &&& !(i16::MIN <= wire.sequencer_id <= i16::MAX)
                    &&& v.field@ == "sequencer_id"@
                },
            },
    {
        if wire.sequencer_id < i16::MIN as i32 || wire.sequencer_id > i16::MAX as i32 {
            return Err(FieldViolation { field: "sequencer_id".to_owned() });
        }
        let sequencer_id = SequencerId::new(#[verifier::truncate] (wire.sequencer_id as i16));
        let predicate = match wire.predicate {
            Option::Some(wp) => Option::Some(
                Predicate {
                    field_columns: if wp.field_columns.len() == 0 {
                        Option::None
                    } else {
                        Option::Some(wp.field_columns)
                    },
                    partition_key: wp.partition_key,
                    range: wp.range,
                    exprs: wp.exprs,
                },
            ),
            Option::None => Option::None,
        };
        Ok(
            IngesterQueryRequest {
                namespace: wire.namespace,
                sequencer_id,
                table: wire.table,
                columns: wire.columns,
                min_time: wire.min_time,
                max_time: wire.max_time,
                predicate,
                greater_than_sequence_number: wire.greater_than_sequence_number,
            },
        )
    }
}

/// What the buffer answers: the matching record batches, their unified
/// schema, the delete predicates the caller must still apply to
/// separately-fetched persisted files, and the greatest persisted sequence
/// number when it exceeds the request's floor.
#[derive(Debug, PartialEq)]
pub struct IngesterQueryResponse {
    pub data: Vec<Batch>,
    pub schema: Vec<(String, ColType)>,
    pub delete_predicates: Vec<DeletePredicate>,
    pub max_sequencer_number: Option<SequenceNumber>,
}

impl IngesterQueryResponse {
    /// Assembles a response.
    pub fn new(
        data: Vec<Batch>,
        schema: Vec<(String, ColType)>,
        delete_predicates: Vec<DeletePredicate>,
        max_sequencer_number: Option<SequenceNumber>,
    ) -> (r: Self)
        ensures
            r == (IngesterQueryResponse { data, schema, delete_predicates, max_sequencer_number }),
    {
        IngesterQueryResponse { data, schema, delete_predicates, max_sequencer_number }
    }
}

} // verus!
