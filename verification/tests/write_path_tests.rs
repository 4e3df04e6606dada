//! Tests of the write path: routing through the tree, admission
//! accounting, delete broadcast, input errors, and cleanup.

use ingester::batch::Batch;
use ingester::batch::Cell;
use ingester::batch::ColType;
use ingester::batch::Column;
use ingester::catalog::Catalog;
use ingester::data::DmlDelete;
use ingester::data::DmlOperation;
use ingester::data::DmlWrite;
use ingester::data::Error;
use ingester::data::IngesterData;
use ingester::delete::DeletePredicate;
use ingester::delete::TimestampRange;
use ingester::lifecycle::LifecycleConfig;
use ingester::lifecycle::LifecycleManager;
use ingester::types::KafkaPartition;
use ingester::types::SequenceNumber;
use ingester::types::SequencerId;

fn field_batch(value: f64, time: i64) -> Batch {
    Batch {
        row_count: 1,
        columns: vec![
            Column {
                name: "foo".to_string(),
                typ: ColType::F64,
                cells: vec![Cell::F64Bits(value.to_bits())],
            },
            Column { name: "time".to_string(), typ: ColType::I64, cells: vec![Cell::I64(time)] },
        ],
    }
}

fn write(namespace: &str, table: &str, value: f64, time: i64, seq: i64) -> DmlOperation {
    DmlOperation::Write(DmlWrite {
        namespace: namespace.to_string(),
        tables: vec![(table.to_string(), field_batch(value, time))],
        sequence_number: SequenceNumber::new(seq),
    })
}

/// A catalog holding the namespace `foo` with retention `inf` behind the
/// topic `whatevs`, and the sequencer serving it.
fn setup() -> (Catalog, SequencerId) {
    let mut catalog = Catalog::new();
    let kafka_topic = catalog
        .kafka_topics_create_or_get(&"whatevs".to_string())
        .unwrap();
    let query_pool = catalog
        .query_pools_create_or_get(&"whatevs".to_string())
        .unwrap();
    let kafka_partition = KafkaPartition::new(0);
    catalog
        .namespaces_create(
            &"foo".to_string(),
            &"inf".to_string(),
            kafka_topic.id,
            query_pool.id,
        )
        .unwrap();
    let sequencer = catalog
        .sequencers_create_or_get(&kafka_topic, kafka_partition)
        .unwrap();
    (catalog, sequencer.id)
}

#[test]
fn buffer_write_updates_lifecycle_manager_indicates_pause() {
    let (mut catalog, sequencer_id) = setup();
    let mut data = IngesterData::new(vec![sequencer_id]);

    let w1 = write("foo", "mem", 1.0, 10, 1);
    let w1_again = write("foo", "mem", 1.0, 10, 1);
    let w1_size = field_batch(1.0, 10).size();

    let pause_size = w1_size + 1;
    let mut manager = LifecycleManager::new(LifecycleConfig::new(pause_size));
    let should_pause = data
        .buffer_operation(sequencer_id, w1, &mut manager, &mut catalog)
        .unwrap();
    assert!(!should_pause);
    let should_pause = data
        .buffer_operation(sequencer_id, w1_again, &mut manager, &mut catalog)
        .unwrap();
    assert!(should_pause);
}

#[test]
fn writes_land_in_their_dates_partition() {
    let (mut catalog, sequencer_id) = setup();
    let mut data = IngesterData::new(vec![sequencer_id]);
    let mut manager = LifecycleManager::new(LifecycleConfig::new(usize::MAX));

    // one write on the epoch day, one a day later
    data.buffer_operation(sequencer_id, write("foo", "mem", 1.0, 10, 1), &mut manager, &mut catalog)
        .unwrap();
    data.buffer_operation(
        sequencer_id,
        write("foo", "mem", 2.0, 86_400_000_000_000, 2),
        &mut manager,
        &mut catalog,
    )
    .unwrap();

    let sd = &data.sequencers[0].1;
    let ns = sd.namespace(&"foo".to_string()).unwrap();
    let table = ns.table_data(&"mem".to_string()).unwrap();
    // the partition keys are the writes' UTC calendar dates
    assert!(table.partition_data(&"1970-01-01".to_string()).is_some());
    assert!(table.partition_data(&"1970-01-02".to_string()).is_some());
    let p1 = table.partition_data(&"1970-01-01".to_string()).unwrap();
    assert_eq!(p1.data_buffer.buffer.len(), 1);
    assert_eq!(p1.data_buffer.buffer[0].sequencer_number, SequenceNumber::new(1));
}

#[test]
fn delete_broadcasts_to_every_partition_and_is_recorded_once() {
    let (mut catalog, sequencer_id) = setup();
    let mut data = IngesterData::new(vec![sequencer_id]);
    let mut manager = LifecycleManager::new(LifecycleConfig::new(usize::MAX));

    // two partitions of the same table
    data.buffer_operation(sequencer_id, write("foo", "mem", 1.0, 10, 1), &mut manager, &mut catalog)
        .unwrap();
    data.buffer_operation(
        sequencer_id,
        write("foo", "mem", 2.0, 86_400_000_000_000, 2),
        &mut manager,
        &mut catalog,
    )
    .unwrap();

    let delete = DmlOperation::Delete(DmlDelete {
        namespace: "foo".to_string(),
        table_name: Some("mem".to_string()),
        predicate: DeletePredicate { range: TimestampRange { start: 0, end: 20 }, exprs: vec![] },
        sequence_number: SequenceNumber::new(3),
    });
    let pause = data
        .buffer_operation(sequencer_id, delete, &mut manager, &mut catalog)
        .unwrap();
    // deletes never pause ingestion
    assert!(!pause);

    // the tombstone is recorded exactly once in the catalog
    assert_eq!(catalog.tombstones.len(), 1);
    let tombstone = &catalog.tombstones[0];
    assert_eq!(tombstone.sequence_number, SequenceNumber::new(3));

    // and broadcast into both partitions' buffers
    let sd = &data.sequencers[0].1;
    let table = sd
        .namespace(&"foo".to_string())
        .unwrap()
        .table_data(&"mem".to_string())
        .unwrap();
    for key in ["1970-01-01", "1970-01-02"] {
        let p = table.partition_data(&key.to_string()).unwrap();
        assert_eq!(p.data_buffer.deletes.len(), 1);
        assert_eq!(p.data_buffer.deletes[0].id, tombstone.id);
    }
}

#[test]
fn unknown_sequencer_is_a_configuration_error() {
    let (mut catalog, sequencer_id) = setup();
    let mut data = IngesterData::new(vec![sequencer_id]);
    let mut manager = LifecycleManager::new(LifecycleConfig::new(usize::MAX));

    let missing = SequencerId::new(sequencer_id.get() + 1);
    let err = data
        .buffer_operation(missing, write("foo", "mem", 1.0, 10, 1), &mut manager, &mut catalog)
        .unwrap_err();
    assert!(matches!(err, Error::SequencerNotFound { .. }));
}

#[test]
fn unknown_namespace_is_rejected() {
    let (mut catalog, sequencer_id) = setup();
    let mut data = IngesterData::new(vec![sequencer_id]);
    let mut manager = LifecycleManager::new(LifecycleConfig::new(usize::MAX));

    let err = data
        .buffer_operation(
            sequencer_id,
            write("nothere", "mem", 1.0, 10, 1),
            &mut manager,
            &mut catalog,
        )
        .unwrap_err();
    assert!(matches!(err, Error::NamespaceNotFound { .. }));
}

#[test]
fn write_without_time_column_is_rejected() {
    let (mut catalog, sequencer_id) = setup();
    let mut data = IngesterData::new(vec![sequencer_id]);
    let mut manager = LifecycleManager::new(LifecycleConfig::new(usize::MAX));

    let no_time = DmlOperation::Write(DmlWrite {
        namespace: "foo".to_string(),
        tables: vec![(
            "mem".to_string(),
            Batch {
                row_count: 1,
                columns: vec![Column {
                    name: "foo".to_string(),
                    typ: ColType::F64,
                    cells: vec![Cell::F64Bits(1.0f64.to_bits())],
                }],
            },
        )],
        sequence_number: SequenceNumber::new(1),
    });
    let err = data
        .buffer_operation(sequencer_id, no_time, &mut manager, &mut catalog)
        .unwrap_err();
    assert!(matches!(err, Error::TimeColumnNotPresent));
}

#[test]
fn delete_without_table_name_is_rejected() {
    let (mut catalog, sequencer_id) = setup();
    let mut data = IngesterData::new(vec![sequencer_id]);
    let mut manager = LifecycleManager::new(LifecycleConfig::new(usize::MAX));

    let delete = DmlOperation::Delete(DmlDelete {
        namespace: "foo".to_string(),
        table_name: None,
        predicate: DeletePredicate { range: TimestampRange { start: 0, end: 20 }, exprs: vec![] },
        sequence_number: SequenceNumber::new(1),
    });
    let err = data
        .buffer_operation(sequencer_id, delete, &mut manager, &mut catalog)
        .unwrap_err();
    assert!(matches!(err, Error::TableNotPresent));
}

#[test]
fn catalog_outage_surfaces_as_an_input_error_and_changes_nothing() {
    let (mut catalog, sequencer_id) = setup();
    let mut data = IngesterData::new(vec![sequencer_id]);
    let mut manager = LifecycleManager::new(LifecycleConfig::new(usize::MAX));

    // the next catalog call fails once
    catalog.faults.push(true);
    let err = data
        .buffer_operation(sequencer_id, write("foo", "mem", 1.0, 10, 1), &mut manager, &mut catalog)
        .unwrap_err();
    assert!(matches!(err, Error::Catalog { .. }));
    assert_eq!(catalog.tables.len(), 0);
}

#[test]
fn cleanup_twice_on_a_removed_partition_is_a_safe_no_op() {
    let (mut catalog, sequencer_id) = setup();
    let mut data = IngesterData::new(vec![sequencer_id]);
    let mut manager = LifecycleManager::new(LifecycleConfig::new(usize::MAX));

    data.buffer_operation(sequencer_id, write("foo", "mem", 1.0, 10, 1), &mut manager, &mut catalog)
        .unwrap();

    let ns = &mut data.sequencers[0].1.namespaces[0].1;
    // simulate the end of a persist cycle: the partition's data is gone
    ns.tables[0].1.partition_data[0].1.data_buffer.buffer.clear();

    let table_name = "mem".to_string();
    let partition_key = "1970-01-01".to_string();
    ns.mark_persisted_and_remove_if_empty(&table_name, &partition_key);
    // the emptied partition is removed, and with it the emptied table
    assert!(ns.tables.is_empty());

    // running the cleanup again on the already-removed partition changes
    // nothing and reports no error
    ns.mark_persisted_and_remove_if_empty(&table_name, &partition_key);
    assert!(ns.tables.is_empty());
}
