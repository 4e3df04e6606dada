//! Tests of the three-stage data buffer: folding the mutable stage into
//! snapshots, freezing persisting batches, and projecting snapshots.

use ingester::batch::Batch;
use ingester::batch::BatchError;
use ingester::batch::Cell;
use ingester::batch::ColType;
use ingester::batch::Column;
use ingester::buffer::BufferBatch;
use ingester::buffer::DataBuffer;
use ingester::buffer::PersistingBatch;
use ingester::buffer::QueryableBatch;
use ingester::buffer::SnapshotBatch;
use ingester::data::Error;
use ingester::scan::Selection;
use ingester::types::PartitionId;
use ingester::types::SequenceNumber;
use ingester::types::SequencerId;
use ingester::types::TableId;

fn col(name: &str, typ: ColType, cells: Vec<Cell>) -> Column {
    Column { name: name.to_string(), typ, cells }
}

/// The batch for the line `foo,t1=asdf iv=1i,uv=774u,fv=1.0,bv=true,sv="hi" 1`.
fn lp_batch_1() -> Batch {
    Batch {
        row_count: 1,
        columns: vec![
            col("t1", ColType::Tag, vec![Cell::Tag("asdf".to_string())]),
            col("iv", ColType::I64, vec![Cell::I64(1)]),
            col("uv", ColType::U64, vec![Cell::U64(774)]),
            col("fv", ColType::F64, vec![Cell::F64Bits(1.0f64.to_bits())]),
            col("bv", ColType::Bool, vec![Cell::Bool(true)]),
            col("sv", ColType::Str, vec![Cell::Str("hi".to_string())]),
            col("time", ColType::I64, vec![Cell::I64(1)]),
        ],
    }
}

/// The batch for the line `foo,t1=aoeu iv=2i,uv=1u,fv=12.0,bv=false,sv="bye" 10000`.
fn lp_batch_2() -> Batch {
    Batch {
        row_count: 1,
        columns: vec![
            col("t1", ColType::Tag, vec![Cell::Tag("aoeu".to_string())]),
            col("iv", ColType::I64, vec![Cell::I64(2)]),
            col("uv", ColType::U64, vec![Cell::U64(1)]),
            col("fv", ColType::F64, vec![Cell::F64Bits(12.0f64.to_bits())]),
            col("bv", ColType::Bool, vec![Cell::Bool(false)]),
            col("sv", ColType::Str, vec![Cell::Str("bye".to_string())]),
            col("time", ColType::I64, vec![Cell::I64(10000)]),
        ],
    }
}

#[test]
fn snapshot_empty_buffer_adds_no_snapshots() {
    let mut data_buffer = DataBuffer::default();

    data_buffer.snapshot().unwrap();

    assert!(data_buffer.snapshots.is_empty());
}

#[test]
fn snapshot_buffer_one_buffer_batch_moves_to_snapshots() {
    let mut data_buffer = DataBuffer::default();

    let seq_num1 = SequenceNumber::new(1);
    let mutable_batch1 = lp_batch_1();
    let buffer_batch1 = BufferBatch { sequencer_number: seq_num1, data: mutable_batch1 };
    let record_batch1 = buffer_batch1.data.clone();
    data_buffer.buffer.push(buffer_batch1);

    data_buffer.snapshot().unwrap();

    assert!(data_buffer.buffer.is_empty());
    assert_eq!(data_buffer.snapshots.len(), 1);

    let snapshot = &data_buffer.snapshots[0];
    assert_eq!(snapshot.min_sequencer_number, seq_num1);
    assert_eq!(snapshot.max_sequencer_number, seq_num1);
    assert_eq!(snapshot.data, record_batch1);
}

#[test]
fn snapshot_buffer_multiple_buffer_batches_combines_into_a_snapshot() {
    let mut data_buffer = DataBuffer::default();

    let seq_num1 = SequenceNumber::new(1);
    let mut mutable_batch1 = lp_batch_1();
    let buffer_batch1 = BufferBatch { sequencer_number: seq_num1, data: lp_batch_1() };
    data_buffer.buffer.push(buffer_batch1);

    let seq_num2 = SequenceNumber::new(2);
    let mutable_batch2 = lp_batch_2();
    let buffer_batch2 = BufferBatch { sequencer_number: seq_num2, data: lp_batch_2() };
    data_buffer.buffer.push(buffer_batch2);

    data_buffer.snapshot().unwrap();

    assert!(data_buffer.buffer.is_empty());
    assert_eq!(data_buffer.snapshots.len(), 1);

    let snapshot = &data_buffer.snapshots[0];
    assert_eq!(snapshot.min_sequencer_number, seq_num1);
    assert_eq!(snapshot.max_sequencer_number, seq_num2);

    mutable_batch1.extend_from(&mutable_batch2).unwrap();
    let combined_record_batch = mutable_batch1;
    assert_eq!(snapshot.data, combined_record_batch);
}

#[test]
fn snapshot_buffer_different_but_compatible_schemas() {
    let mut data_buffer = DataBuffer::default();

    let seq_num1 = SequenceNumber::new(1);
    // Missing tag `t1`: `foo iv=1i,uv=774u,fv=1.0,bv=true,sv="hi" 1`
    let mut mutable_batch1 = Batch {
        row_count: 1,
        columns: vec![
            col("iv", ColType::I64, vec![Cell::I64(1)]),
            col("uv", ColType::U64, vec![Cell::U64(774)]),
            col("fv", ColType::F64, vec![Cell::F64Bits(1.0f64.to_bits())]),
            col("bv", ColType::Bool, vec![Cell::Bool(true)]),
            col("sv", ColType::Str, vec![Cell::Str("hi".to_string())]),
            col("time", ColType::I64, vec![Cell::I64(1)]),
        ],
    };
    let buffer_batch1 = BufferBatch { sequencer_number: seq_num1, data: mutable_batch1.clone() };
    data_buffer.buffer.push(buffer_batch1);

    let seq_num2 = SequenceNumber::new(2);
    // Missing field `iv`: `foo,t1=aoeu uv=1u,fv=12.0,bv=false,sv="bye" 10000`
    let mutable_batch2 = Batch {
        row_count: 1,
        columns: vec![
            col("t1", ColType::Tag, vec![Cell::Tag("aoeu".to_string())]),
            col("uv", ColType::U64, vec![Cell::U64(1)]),
            col("fv", ColType::F64, vec![Cell::F64Bits(12.0f64.to_bits())]),
            col("bv", ColType::Bool, vec![Cell::Bool(false)]),
            col("sv", ColType::Str, vec![Cell::Str("bye".to_string())]),
            col("time", ColType::I64, vec![Cell::I64(10000)]),
        ],
    };
    let buffer_batch2 = BufferBatch { sequencer_number: seq_num2, data: mutable_batch2.clone() };
    data_buffer.buffer.push(buffer_batch2);

    data_buffer.snapshot().unwrap();

    assert!(data_buffer.buffer.is_empty());
    assert_eq!(data_buffer.snapshots.len(), 1);

    let snapshot = &data_buffer.snapshots[0];
    assert_eq!(snapshot.min_sequencer_number, seq_num1);
    assert_eq!(snapshot.max_sequencer_number, seq_num2);

    mutable_batch1.extend_from(&mutable_batch2).unwrap();
    let combined_record_batch = mutable_batch1;
    assert_eq!(snapshot.data, combined_record_batch);
}

#[test]
fn snapshot_buffer_error_leaves_data_buffer_as_is() {
    let mut data_buffer = DataBuffer::default();

    let seq_num1 = SequenceNumber::new(1);
    let mutable_batch1 = lp_batch_1();
    let buffer_batch1 = BufferBatch { sequencer_number: seq_num1, data: mutable_batch1 };
    data_buffer.buffer.push(buffer_batch1);

    let seq_num2 = SequenceNumber::new(2);
    // Create a type mismatch: `foo iv=false 10000`
    let mutable_batch2 = Batch {
        row_count: 1,
        columns: vec![
            col("iv", ColType::Bool, vec![Cell::Bool(false)]),
            col("time", ColType::I64, vec![Cell::I64(10000)]),
        ],
    };
    let buffer_batch2 = BufferBatch { sequencer_number: seq_num2, data: mutable_batch2 };
    data_buffer.buffer.push(buffer_batch2);

    let err = data_buffer.snapshot().unwrap_err();
    assert!(matches!(err, BatchError::TypeMismatch { .. }));

    assert_eq!(data_buffer.buffer.len(), 2);
    assert!(data_buffer.snapshots.is_empty());
}

#[test]
fn snapshot_to_persisting_rejects_second_in_flight_batch() {
    let mut data_buffer = DataBuffer::default();
    data_buffer.buffer.push(BufferBatch {
        sequencer_number: SequenceNumber::new(1),
        data: lp_batch_1(),
    });

    let table_name = "foo".to_string();
    data_buffer
        .snapshot_to_persisting(
            SequencerId::new(1),
            TableId::new(2),
            PartitionId::new(3),
            &table_name,
        )
        .unwrap();
    let frozen = data_buffer.persisting.clone().unwrap();
    assert_eq!(frozen.data.data.len(), 1);

    // a second freeze while one is in flight is rejected, never replacing
    // the batch in flight
    data_buffer.buffer.push(BufferBatch {
        sequencer_number: SequenceNumber::new(2),
        data: lp_batch_2(),
    });
    let err = data_buffer
        .snapshot_to_persisting(
            SequencerId::new(1),
            TableId::new(2),
            PartitionId::new(3),
            &table_name,
        )
        .unwrap_err();
    assert!(matches!(err, Error::PersistingNotEmpty));
    assert_eq!(data_buffer.persisting, Some(frozen));
    assert_eq!(data_buffer.buffer.len(), 1);
}

#[test]
fn add_and_remove_persisting_batch_report_mismatches() {
    let mut data_buffer = DataBuffer::default();
    let batch = PersistingBatch {
        sequencer_id: SequencerId::new(1),
        table_id: TableId::new(2),
        partition_id: PartitionId::new(3),
        object_store_id: 42,
        data: QueryableBatch {
            data: vec![],
            deletes: vec![],
            table_name: "foo".to_string(),
        },
    };

    let err = data_buffer.remove_persisting_batch(&batch).unwrap_err();
    assert!(matches!(err, Error::PersistingEmpty));

    data_buffer.add_persisting_batch(batch.clone()).unwrap();
    let err = data_buffer.add_persisting_batch(batch.clone()).unwrap_err();
    assert!(matches!(err, Error::PersistingNotEmpty));

    let mut other = batch.clone();
    other.object_store_id = 43;
    let err = data_buffer.remove_persisting_batch(&other).unwrap_err();
    assert!(matches!(err, Error::PersistingNotMatch));

    // equal identifiers but different content is still not the batch in
    // flight: the comparison covers the whole batch
    let mut same_ids = batch.clone();
    same_ids.data.data.push(SnapshotBatch {
        min_sequencer_number: SequenceNumber::new(9),
        max_sequencer_number: SequenceNumber::new(9),
        data: lp_batch_2(),
    });
    let err = data_buffer.remove_persisting_batch(&same_ids).unwrap_err();
    assert!(matches!(err, Error::PersistingNotMatch));

    data_buffer.remove_persisting_batch(&batch).unwrap();
    assert!(data_buffer.persisting.is_none());
}

#[test]
fn scan_projects_column_subsets_and_reports_missing_ones() {
    let snapshot = SnapshotBatch {
        min_sequencer_number: SequenceNumber::new(1),
        max_sequencer_number: SequenceNumber::new(1),
        data: lp_batch_1(),
    };

    // the full batch comes back unchanged
    let all = snapshot.scan(&Selection::All).unwrap();
    assert_eq!(all, lp_batch_1());

    // a subset keeps exactly the requested columns, in request order,
    // with unchanged values
    let some = snapshot
        .scan(&Selection::Cols(vec!["sv".to_string(), "time".to_string()]))
        .unwrap();
    assert_eq!(
        some,
        Batch {
            row_count: 1,
            columns: vec![
                col("sv", ColType::Str, vec![Cell::Str("hi".to_string())]),
                col("time", ColType::I64, vec![Cell::I64(1)]),
            ],
        }
    );

    // requested names absent from this snapshot's schema contribute
    // nothing; none matching means no data, not an empty batch
    let partial = snapshot
        .scan(&Selection::Cols(vec!["nope".to_string(), "iv".to_string()]))
        .unwrap();
    assert_eq!(partial.columns.len(), 1);
    assert_eq!(partial.columns[0].name, "iv");

    let none = snapshot.scan(&Selection::Cols(vec!["nope".to_string()]));
    assert!(none.is_none());
}
