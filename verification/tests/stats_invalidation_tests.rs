//! Test of the statistics aggregator's poisoning: a field an update
//! cannot speak for stays unknown in the aggregate, whichever update
//! withheld it.

use ingester::stats::ColumnStatistics;
use ingester::stats::DFStatsAggregator;
use ingester::stats::ScalarValue;
use ingester::stats::Schema;
use ingester::stats::Statistics;

fn mask_num_rows(stats: &mut Statistics) {
    stats.num_rows = None;
}

fn mask_total_byte_size(stats: &mut Statistics) {
    stats.total_byte_size = None;
}

fn mask_column_statistics(stats: &mut Statistics) {
    stats.column_statistics = None;
}

fn mask_col0_null_count(stats: &mut Statistics) {
    if let Some(cols) = stats.column_statistics.as_mut() {
        cols[0].null_count = None;
    }
}

fn mask_col0_max_value(stats: &mut Statistics) {
    if let Some(cols) = stats.column_statistics.as_mut() {
        cols[0].max_value = None;
    }
}

fn mask_col0_min_value(stats: &mut Statistics) {
    if let Some(cols) = stats.column_statistics.as_mut() {
        cols[0].min_value = None;
    }
}

fn mask_col1_null_count(stats: &mut Statistics) {
    if let Some(cols) = stats.column_statistics.as_mut() {
        cols[1].null_count = None;
    }
}

fn mask_is_exact(stats: &mut Statistics) {
    stats.is_exact = false;
}

#[test]
fn test_df_stats_agg_invalidation() {
    let schema = Schema::new(vec!["col1".to_string(), "col2".to_string()]);

    let update_stats = Statistics {
        num_rows: Some(1),
        total_byte_size: Some(10),
        column_statistics: Some(vec![
            ColumnStatistics {
                null_count: Some(100),
                max_value: Some(ScalarValue::U64(Some(100))),
                min_value: Some(ScalarValue::U64(Some(50))),
                distinct_count: Some(42),
            },
            ColumnStatistics {
                null_count: Some(1_000),
                max_value: Some(ScalarValue::Utf8(Some("e".to_owned()))),
                min_value: Some(ScalarValue::Utf8(Some("b".to_owned()))),
                distinct_count: Some(42),
            },
        ]),
        is_exact: true,
    };
    let agg_stats = Statistics {
        num_rows: Some(2),
        total_byte_size: Some(20),
        column_statistics: Some(vec![
            ColumnStatistics {
                null_count: Some(200),
                max_value: Some(ScalarValue::U64(Some(100))),
                min_value: Some(ScalarValue::U64(Some(50))),
                distinct_count: None,
            },
            ColumnStatistics {
                null_count: Some(2_000),
                max_value: Some(ScalarValue::Utf8(Some("e".to_owned()))),
                min_value: Some(ScalarValue::Utf8(Some("b".to_owned()))),
                distinct_count: None,
            },
        ]),
        is_exact: true,
    };

    let modes: [fn(&mut Statistics); 8] = [
        mask_num_rows,
        mask_total_byte_size,
        mask_column_statistics,
        mask_col0_null_count,
        mask_col0_max_value,
        mask_col0_min_value,
        mask_col1_null_count,
        mask_is_exact,
    ];

    for (mode_idx, mask) in modes.iter().enumerate() {
        println!("mode: {mode_idx:?}");

        for invalid_mask in [[false, true], [true, false], [true, true]] {
            println!("invalid_mask: {invalid_mask:?}");
            let mut agg = DFStatsAggregator::new(&schema);

            for invalid in invalid_mask {
                let mut update_stats = update_stats.clone();
                if invalid {
                    mask(&mut update_stats);
                }
                agg.update(&update_stats, &schema);
            }

            let actual = agg.build();

            let mut expected = agg_stats.clone();
            mask(&mut expected);
            assert_eq!(actual, expected);
        }
    }
}
