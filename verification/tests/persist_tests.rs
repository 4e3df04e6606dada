//! Tests of the persist cycle: the end-to-end durability path, its
//! behaviour under transient failures, and the query-request wire form.

use ingester::batch::Batch;
use ingester::batch::Cell;
use ingester::batch::ColType;
use ingester::batch::Column;
use ingester::catalog::Catalog;
use ingester::data::DmlOperation;
use ingester::data::DmlWrite;
use ingester::data::IngesterData;
use ingester::delete::TimestampRange;
use ingester::lifecycle::LifecycleConfig;
use ingester::lifecycle::LifecycleManager;
use ingester::object_store::ObjectStore;
use ingester::request::IngesterQueryRequest;
use ingester::request::Predicate;
use ingester::request::WirePredicate;
use ingester::request::WireQueryRequest;
use ingester::types::KafkaPartition;
use ingester::types::SequenceNumber;
use ingester::types::SequencerId;
use ingester::types::Timestamp;

fn field_batch(value: f64, time: i64) -> Batch {
    Batch {
        row_count: 1,
        columns: vec![
            Column {
                name: "foo".to_string(),
                typ: ColType::F64,
                cells: vec![Cell::F64Bits(value.to_bits())],
            },
            Column { name: "time".to_string(), typ: ColType::I64, cells: vec![Cell::I64(time)] },
        ],
    }
}

fn write(namespace: &str, table: &str, value: f64, time: i64, seq: i64) -> DmlOperation {
    DmlOperation::Write(DmlWrite {
        namespace: namespace.to_string(),
        tables: vec![(table.to_string(), field_batch(value, time))],
        sequence_number: SequenceNumber::new(seq),
    })
}

#[test]
fn persist() {
    let mut catalog = Catalog::new();
    let kafka_topic = catalog
        .kafka_topics_create_or_get(&"whatevs".to_string())
        .unwrap();
    let query_pool = catalog
        .query_pools_create_or_get(&"whatevs".to_string())
        .unwrap();
    let kafka_partition = KafkaPartition::new(0);
    catalog
        .namespaces_create(
            &"foo".to_string(),
            &"inf".to_string(),
            kafka_topic.id,
            query_pool.id,
        )
        .unwrap();
    let sequencer1 = catalog
        .sequencers_create_or_get(&kafka_topic, kafka_partition)
        .unwrap();
    let sequencer2 = catalog
        .sequencers_create_or_get(&kafka_topic, kafka_partition)
        .unwrap();
    let mut object_store = ObjectStore::new();
    // create-or-get is keyed, so both calls name the same sequencer and
    // the tree serves one entry, as a map would
    assert_eq!(sequencer1.id, sequencer2.id);
    let mut data = IngesterData::new(vec![sequencer1.id]);
    let mut manager = LifecycleManager::new(LifecycleConfig::new(1));

    // `mem` at times 10 and 30 on sequencer one, `cpu` at time 10 on
    // sequencer two
    data.buffer_operation(
        sequencer1.id,
        write("foo", "mem", 1.0, 10, 1),
        &mut manager,
        &mut catalog,
    )
    .unwrap();
    data.buffer_operation(
        sequencer2.id,
        write("foo", "cpu", 1.0, 10, 1),
        &mut manager,
        &mut catalog,
    )
    .unwrap();
    data.buffer_operation(
        sequencer1.id,
        write("foo", "mem", 1.0, 30, 2),
        &mut manager,
        &mut catalog,
    )
    .unwrap();

    let (mem_table_id, partition_id) = {
        let sd = &data.sequencers[0].1;
        let n = sd.namespace(&"foo".to_string()).unwrap();
        let mem_table = n.table_data(&"mem".to_string()).unwrap();
        assert!(n.table_data(&"cpu".to_string()).is_some());
        let p = mem_table.partition_data(&"1970-01-01".to_string()).unwrap();
        (mem_table.table_id, p.id)
    };

    data.persist(partition_id, &mut catalog, &mut object_store).unwrap();

    // exactly one durable file landed in the object store
    let file_paths = object_store.list();
    assert_eq!(file_paths.len(), 1);

    // exactly one catalog record, with the writes' time and sequence range
    let parquet_files =
        catalog.parquet_files_by_sequencer_greater_than(sequencer1.id, SequenceNumber::new(0));
    assert_eq!(parquet_files.len(), 1);
    let pf = parquet_files.first().unwrap();
    assert_eq!(pf.partition_id, partition_id);
    assert_eq!(pf.table_id, mem_table_id);
    assert_eq!(pf.min_time, Timestamp::new(10));
    assert_eq!(pf.max_time, Timestamp::new(30));
    assert_eq!(pf.min_sequence_number, SequenceNumber::new(1));
    assert_eq!(pf.max_sequence_number, SequenceNumber::new(2));
    assert_eq!(pf.sequencer_id, sequencer1.id);
    assert!(!pf.to_delete);

    // the `mem` partition is gone from memory, `cpu`'s is untouched
    let sd = &data.sequencers[0].1;
    let n = sd.namespace(&"foo".to_string()).unwrap();
    assert!(n.table_data(&"mem".to_string()).is_none());
    let cpu_table = n.table_data(&"cpu".to_string()).unwrap();
    assert!(cpu_table.partition_data(&"1970-01-01".to_string()).is_some());
}

#[test]
fn persist_retries_transient_failures_and_lands_exactly_once() {
    let mut catalog = Catalog::new();
    let kafka_topic = catalog
        .kafka_topics_create_or_get(&"whatevs".to_string())
        .unwrap();
    let query_pool = catalog
        .query_pools_create_or_get(&"whatevs".to_string())
        .unwrap();
    catalog
        .namespaces_create(
            &"foo".to_string(),
            &"inf".to_string(),
            kafka_topic.id,
            query_pool.id,
        )
        .unwrap();
    let sequencer = catalog
        .sequencers_create_or_get(&kafka_topic, KafkaPartition::new(0))
        .unwrap();
    let mut object_store = ObjectStore::new();
    let mut data = IngesterData::new(vec![sequencer.id]);
    let mut manager = LifecycleManager::new(LifecycleConfig::new(usize::MAX));

    data.buffer_operation(
        sequencer.id,
        write("foo", "mem", 1.0, 10, 1),
        &mut manager,
        &mut catalog,
    )
    .unwrap();
    let partition_id = {
        let sd = &data.sequencers[0].1;
        let n = sd.namespace(&"foo".to_string()).unwrap();
        let mem_table = n.table_data(&"mem".to_string()).unwrap();
        mem_table.partition_data(&"1970-01-01".to_string()).unwrap().id
    };

    // several catalog calls and the first store write fail before
    // eventually succeeding; the schedule is consumed from the end
    catalog.faults = vec![false, true, false, true, true];
    object_store.faults = vec![false, true];

    data.persist(partition_id, &mut catalog, &mut object_store).unwrap();

    // the retries still produce exactly one file and one record
    assert_eq!(object_store.list().len(), 1);
    let parquet_files =
        catalog.parquet_files_by_sequencer_greater_than(sequencer.id, SequenceNumber::new(0));
    assert_eq!(parquet_files.len(), 1);
}

#[test]
fn query_from_protobuf() {
    let rust_predicate = Predicate {
        field_columns: None,
        partition_key: None,
        range: Some(TimestampRange { start: 1, end: 100 }),
        exprs: vec!["foo".to_string()],
    };

    let proto_predicate = WirePredicate {
        exprs: vec!["foo".to_string()],
        field_columns: vec![],
        partition_key: None,
        range: Some(TimestampRange { start: 1, end: 100 }),
    };

    let rust_query = IngesterQueryRequest::new(
        "mydb".to_string(),
        SequencerId::new(5),
        "cpu".to_string(),
        vec!["usage".to_string(), "time".to_string()],
        1,
        20,
        Some(rust_predicate),
        Some(5),
    );

    let proto_query = WireQueryRequest {
        namespace: "mydb".to_string(),
        sequencer_id: 5,
        table: "cpu".to_string(),
        columns: vec!["usage".to_string(), "time".to_string()],
        min_time: 1,
        max_time: 20,
        predicate: Some(proto_predicate),
        greater_than_sequence_number: Some(5),
    };

    let rust_query_converted = IngesterQueryRequest::try_from(proto_query).unwrap();

    assert_eq!(rust_query, rust_query_converted);

    // a sequencer id beyond the in-memory width is a field violation
    let bad = WireQueryRequest {
        namespace: "mydb".to_string(),
        sequencer_id: 100_000,
        table: "cpu".to_string(),
        columns: vec![],
        min_time: 1,
        max_time: 20,
        predicate: None,
        greater_than_sequence_number: None,
    };
    let violation = IngesterQueryRequest::try_from(bad).unwrap_err();
    assert_eq!(violation.field, "sequencer_id");
}
