//! Tests of the per-day write partitioning.

use ingester::partitioner::partition_by_day;

#[test]
fn partitions_lines_by_their_calendar_day() {
    // timestamps drawn from writes on three different days
    let lines: Vec<(Option<i64>, &str)> = vec![
        (Some(1), "bananas"),
        (Some(1_465_839_830_100_400_200), "platanos"),
        (Some(1_465_839_830_100_400_200), "another"),
        (Some(2), "bananas"),
        (Some(1_644_347_270_670_952_000), "table"),
    ];
    let groups = partition_by_day(lines, 0);

    assert_eq!(groups.len(), 3);
    assert_eq!(groups[0].key, "1970-01-01");
    assert_eq!(groups[0].payload, vec!["bananas", "bananas"]);
    assert_eq!(groups[1].key, "2016-06-13");
    assert_eq!(groups[1].payload, vec!["platanos", "another"]);
    assert_eq!(groups[2].key, "2022-02-08");
    assert_eq!(groups[2].payload, vec!["table"]);
}

#[test]
fn lines_without_a_timestamp_fall_on_the_default_day() {
    // the default time stands in for missing timestamps (1971-05-02)
    let lines: Vec<(Option<i64>, &str)> = vec![
        (None, "bananas"),
        (None, "platanos"),
        (None, "another"),
        (None, "bananas"),
        (None, "table"),
    ];
    let groups = partition_by_day(lines, 42_000_000_000_000_000);

    assert_eq!(groups.len(), 1);
    assert_eq!(groups[0].key, "1971-05-02");
    assert_eq!(
        groups[0].payload,
        vec!["bananas", "platanos", "another", "bananas", "table"]
    );
}

#[test]
fn an_empty_write_produces_no_partitions() {
    let lines: Vec<(Option<i64>, &str)> = Vec::new();
    let groups = partition_by_day(lines, 0);
    assert!(groups.is_empty());
}
