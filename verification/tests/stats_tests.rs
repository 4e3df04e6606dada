//! Tests of the statistics aggregator.

use ingester::stats::ColumnStatistics;
use ingester::stats::DFStatsAggregator;
use ingester::stats::ScalarValue;
use ingester::stats::Schema;
use ingester::stats::Statistics;

fn schema_cols(names: &[&str]) -> Schema {
    Schema::new(names.iter().map(|n| n.to_string()).collect())
}

#[test]
fn test_df_stats_agg_no_cols_no_updates() {
    let schema = Schema::new(Vec::new());
    let agg = DFStatsAggregator::new(&schema);

    let actual = agg.build();
    let expected = Statistics {
        num_rows: Some(0),
        total_byte_size: Some(0),
        column_statistics: Some(vec![]),
        is_exact: true,
    };
    assert_eq!(actual, expected);
}

#[test]
fn test_df_stats_agg_no_updates() {
    let schema = schema_cols(&["col1", "col2"]);
    let agg = DFStatsAggregator::new(&schema);

    let actual = agg.build();
    let expected = Statistics {
        num_rows: Some(0),
        total_byte_size: Some(0),
        column_statistics: Some(vec![
            ColumnStatistics {
                null_count: Some(0),
                max_value: None,
                min_value: None,
                distinct_count: None,
            },
            ColumnStatistics {
                null_count: Some(0),
                max_value: None,
                min_value: None,
                distinct_count: None,
            },
        ]),
        is_exact: true,
    };
    assert_eq!(actual, expected);
}

#[test]
fn test_df_stats_agg_valid_update_partial() {
    let schema = schema_cols(&["col1", "col2"]);
    let mut agg = DFStatsAggregator::new(&schema);

    let update_schema = schema_cols(&["col1", "col2"]);
    let update_stats = Statistics {
        num_rows: Some(1),
        total_byte_size: Some(10),
        column_statistics: Some(vec![
            ColumnStatistics {
                null_count: Some(100),
                max_value: Some(ScalarValue::U64(Some(100))),
                min_value: Some(ScalarValue::U64(Some(50))),
                distinct_count: Some(42),
            },
            ColumnStatistics {
                null_count: Some(1_000),
                max_value: Some(ScalarValue::Utf8(Some("e".to_owned()))),
                min_value: Some(ScalarValue::Utf8(Some("b".to_owned()))),
                distinct_count: Some(42),
            },
        ]),
        is_exact: true,
    };
    agg.update(&update_stats, &update_schema);

    let update_schema = schema_cols(&["col2"]);
    let update_stats = Statistics {
        num_rows: Some(10_000),
        total_byte_size: Some(100_000),
        column_statistics: Some(vec![ColumnStatistics {
            null_count: Some(1_000_000),
            max_value: Some(ScalarValue::Utf8(Some("g".to_owned()))),
            min_value: Some(ScalarValue::Utf8(Some("c".to_owned()))),
            distinct_count: Some(42),
        }]),
        is_exact: true,
    };
    agg.update(&update_stats, &update_schema);

    let actual = agg.build();
    let expected = Statistics {
        num_rows: Some(10_001),
        total_byte_size: Some(100_010),
        column_statistics: Some(vec![
            ColumnStatistics {
                null_count: None,
                max_value: Some(ScalarValue::U64(Some(100))),
                min_value: Some(ScalarValue::U64(Some(50))),
                distinct_count: None,
            },
            ColumnStatistics {
                null_count: Some(1_001_000),
                max_value: Some(ScalarValue::Utf8(Some("g".to_owned()))),
                min_value: Some(ScalarValue::Utf8(Some("b".to_owned()))),
                distinct_count: None,
            },
        ]),
        is_exact: true,
    };
    assert_eq!(actual, expected);
}

#[test]
fn test_df_stats_agg_valid_update_col_reorder() {
    let schema = schema_cols(&["col1", "col2"]);
    let mut agg = DFStatsAggregator::new(&schema);

    let update_schema = schema_cols(&["col1", "col2"]);
    let update_stats = Statistics {
        num_rows: Some(1),
        total_byte_size: Some(10),
        column_statistics: Some(vec![
            ColumnStatistics {
                null_count: Some(100),
                max_value: Some(ScalarValue::U64(Some(100))),
                min_value: Some(ScalarValue::U64(Some(50))),
                distinct_count: Some(42),
            },
            ColumnStatistics {
                null_count: Some(1_000),
                max_value: Some(ScalarValue::Utf8(Some("e".to_owned()))),
                min_value: Some(ScalarValue::Utf8(Some("b".to_owned()))),
                distinct_count: Some(42),
            },
        ]),
        is_exact: true,
    };
    agg.update(&update_stats, &update_schema);

    let update_schema = schema_cols(&["col2", "col1"]);
    let update_stats = Statistics {
        num_rows: Some(10_000),
        total_byte_size: Some(100_000),
        column_statistics: Some(vec![
            ColumnStatistics {
                null_count: Some(1_000_000),
                max_value: Some(ScalarValue::Utf8(Some("g".to_owned()))),
                min_value: Some(ScalarValue::Utf8(Some("c".to_owned()))),
                distinct_count: Some(42),
            },
            ColumnStatistics {
                null_count: Some(10_000_000),
                max_value: Some(ScalarValue::U64(Some(99))),
                min_value: Some(ScalarValue::U64(Some(40))),
                distinct_count: Some(42),
            },
        ]),
        is_exact: true,
    };
    agg.update(&update_stats, &update_schema);

    let actual = agg.build();
    let expected = Statistics {
        num_rows: Some(10_001),
        total_byte_size: Some(100_010),
        column_statistics: Some(vec![
            ColumnStatistics {
                null_count: Some(10_000_100),
                max_value: Some(ScalarValue::U64(Some(100))),
                min_value: Some(ScalarValue::U64(Some(40))),
                distinct_count: None,
            },
            ColumnStatistics {
                null_count: Some(1_001_000),
                max_value: Some(ScalarValue::Utf8(Some("g".to_owned()))),
                min_value: Some(ScalarValue::Utf8(Some("b".to_owned()))),
                distinct_count: None,
            },
        ]),
        is_exact: true,
    };
    assert_eq!(actual, expected);
}

#[test]
fn test_df_stats_agg_ignores_unknown_cols() {
    let schema = schema_cols(&["col1", "col2"]);
    let mut agg = DFStatsAggregator::new(&schema);

    let update_schema = schema_cols(&["col1", "col3"]);
    let update_stats = Statistics {
        num_rows: Some(1),
        total_byte_size: Some(10),
        column_statistics: Some(vec![
            ColumnStatistics {
                null_count: Some(100),
                max_value: Some(ScalarValue::U64(Some(100))),
                min_value: Some(ScalarValue::U64(Some(50))),
                distinct_count: Some(42),
            },
            ColumnStatistics {
                null_count: Some(1_000),
                max_value: Some(ScalarValue::Utf8(Some("e".to_owned()))),
                min_value: Some(ScalarValue::Utf8(Some("b".to_owned()))),
                distinct_count: Some(42),
            },
        ]),
        is_exact: true,
    };
    agg.update(&update_stats, &update_schema);

    let actual = agg.build();
    let expected = Statistics {
        num_rows: Some(1),
        total_byte_size: Some(10),
        column_statistics: Some(vec![
            ColumnStatistics {
                null_count: Some(100),
                max_value: Some(ScalarValue::U64(Some(100))),
                min_value: Some(ScalarValue::U64(Some(50))),
                distinct_count: None,
            },
            ColumnStatistics {
                null_count: None,
                max_value: None,
                min_value: None,
                distinct_count: None,
            },
        ]),
        is_exact: true,
    };
    assert_eq!(actual, expected);
}
