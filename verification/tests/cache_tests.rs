//! Tests of the namespace-schema cache: lookup, replacement, and the
//! additive merge of racy puts.

use ingester::cache::Column;
use ingester::cache::ColumnType;
use ingester::cache::MemoryNamespaceCache;
use ingester::cache::NamespaceSchema;
use ingester::cache::TableSchema;
use ingester::types::KafkaTopicId;
use ingester::types::NamespaceId;
use ingester::types::QueryPoolId;
use ingester::types::TableId;

const TEST_NAMESPACE_ID: i64 = 42;

#[test]
fn test_put_get() {
    let ns = "test".to_string();
    let mut cache = MemoryNamespaceCache::default();

    let miss = cache.get_schema(&ns).unwrap_err();
    assert_eq!(miss.namespace, ns);

    let schema1 = NamespaceSchema {
        id: NamespaceId::new(TEST_NAMESPACE_ID),
        topic_id: KafkaTopicId::new(24),
        query_pool_id: QueryPoolId::new(1234),
        tables: Default::default(),
        max_columns_per_table: 50,
        max_tables: 24,
        retention_period_ns: Some(876),
    };
    let (prev, _) = cache.put_schema(ns.clone(), schema1.clone());
    assert!(prev.is_none());
    assert_eq!(cache.get_schema(&ns).expect("lookup failure"), schema1);

    let schema2 = NamespaceSchema {
        id: NamespaceId::new(TEST_NAMESPACE_ID),
        topic_id: KafkaTopicId::new(2),
        query_pool_id: QueryPoolId::new(2),
        tables: Default::default(),
        max_columns_per_table: 10,
        max_tables: 42,
        retention_period_ns: Some(876),
    };

    let (prev, _) = cache.put_schema(ns.clone(), schema2.clone());
    assert_eq!(prev, Some(schema1));
    assert_eq!(cache.get_schema(&ns).expect("lookup failure"), schema2);
}

#[test]
fn test_put_additive_merge() {
    let ns = "arán".to_string();
    let table_name = "arán";
    let table_id = TableId::new(1);

    // two distinct schemas for the namespace, simulating a pair of racy
    // writes with different column additions
    let column_1 = Column {
        id: 1,
        table_id,
        name: String::from("brötchen"),
        column_type: ColumnType::Str,
    };
    let column_2 = Column {
        id: 2,
        table_id,
        name: String::from("pain"),
        column_type: ColumnType::Str,
    };

    let mut table_schema_1 = TableSchema::new(table_id);
    table_schema_1.add_column(&column_1);
    let mut table_schema_2 = TableSchema::new(table_id);
    table_schema_2.add_column(&column_2);

    assert_ne!(table_schema_1, table_schema_2);

    let schema_update_1 = NamespaceSchema {
        id: NamespaceId::new(42),
        topic_id: KafkaTopicId::new(76),
        query_pool_id: QueryPoolId::new(64),
        tables: vec![(String::from(table_name), table_schema_1)],
        max_columns_per_table: 50,
        max_tables: 24,
        retention_period_ns: None,
    };
    let schema_update_2 = NamespaceSchema {
        tables: vec![(String::from(table_name), table_schema_2)],
        ..schema_update_1.clone()
    };

    let want_namespace_schema = {
        let mut want_table_schema = TableSchema::new(table_id);
        want_table_schema.add_column(&column_2);
        want_table_schema.add_column(&column_1);
        NamespaceSchema {
            tables: vec![(String::from(table_name), want_table_schema)],
            ..schema_update_1.clone()
        }
    };

    let mut cache = MemoryNamespaceCache::default();
    let miss = cache.get_schema(&ns).unwrap_err();
    assert_eq!(miss.namespace, ns);

    let (prev, new_schema) = cache.put_schema(ns.clone(), schema_update_1.clone());
    assert!(prev.is_none());
    assert_eq!(new_schema, schema_update_1);

    let (prev, new_schema) = cache.put_schema(ns.clone(), schema_update_2);
    assert!(prev.is_some());
    assert_eq!(new_schema, want_namespace_schema);

    let got_namespace_schema = cache
        .get_schema(&ns)
        .expect("a namespace schema should be found");

    assert_eq!(
        got_namespace_schema, want_namespace_schema,
        "table schema for left hand side should contain columns from both writes",
    );
}
