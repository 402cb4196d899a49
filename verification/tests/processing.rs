use sensor_stats::{process, Mean, ProcessingStats, Record};

fn row(timestamp: &str, sensor_id: &str, value: f64) -> Record {
    Record {
        timestamp: timestamp.to_string(),
        sensor_id: sensor_id.to_string(),
        value: value.to_bits(),
    }
}

fn evaluate(mean: &Mean) -> f64 {
    let sum: f64 = mean.terms.iter().map(|bits| f64::from_bits(*bits)).sum();
    sum / mean.terms.len() as f64
}

#[test]
fn test_filter_and_average() {
    let records = vec![
        row("2024-01-01T00:00:00", "S1", 10.0),
        row("2024-01-01T00:00:01", "S2", 60.0),
        row("2024-01-01T00:00:02", "S1", 80.0),
        row("2024-01-01T00:00:03", "S3", 30.0),
    ];
    let stats = process(&records, 50.0f64.to_bits(), false);

    assert_eq!(stats.total_rows, 4);
    assert_eq!(stats.filtered_rows, 2);
    let avg = evaluate(&stats.average.expect("average should be Some"));
    assert!((avg - 70.0).abs() < 1e-9, "expected 70.0, got {avg}");
}

#[test]
fn test_no_rows_pass_filter() {
    let records = vec![
        row("2024-01-01T00:00:00", "S1", 1.0),
        row("2024-01-01T00:00:01", "S2", 2.0),
    ];
    let stats = process(&records, 100.0f64.to_bits(), false);

    assert_eq!(stats.filtered_rows, 0);
    assert!(stats.average.is_none());
}

#[test]
fn test_all_rows_pass_filter() {
    let records = vec![
        row("2024-01-01T00:00:00", "S1", 100.0),
        row("2024-01-01T00:00:01", "S2", 200.0),
    ];
    let stats = process(&records, 0.0f64.to_bits(), false);

    assert_eq!(stats.total_rows, 2);
    assert_eq!(stats.filtered_rows, 2);
    let avg = evaluate(&stats.average.unwrap());
    assert!((avg - 150.0).abs() < 1e-9);
}

#[test]
fn test_verbose_per_sensor() {
    let records = vec![
        row("2024-01-01T00:00:00", "S1", 60.0),
        row("2024-01-01T00:00:01", "S1", 80.0),
        row("2024-01-01T00:00:02", "S2", 90.0),
        row("2024-01-01T00:00:03", "S2", 10.0),
    ];
    let stats = process(&records, 50.0f64.to_bits(), true);

    assert_eq!(stats.per_sensor.len(), 2);
    let s1 = stats.per_sensor.iter().find(|s| s.sensor_id == "S1").unwrap();
    assert_eq!(s1.count, 2);
    assert!((evaluate(&s1.average) - 70.0).abs() < 1e-9);
    let s2 = stats.per_sensor.iter().find(|s| s.sensor_id == "S2").unwrap();
    assert_eq!(s2.count, 1);
    assert!((evaluate(&s2.average) - 90.0).abs() < 1e-9);
}

fn numbers_of(mean: &Mean) -> Vec<f64> {
    mean.terms.iter().map(|bits| f64::from_bits(*bits)).collect()
}

fn same_stats(a: &ProcessingStats, b: &ProcessingStats) -> bool {
    a.total_rows == b.total_rows
        && a.filtered_rows == b.filtered_rows
        && a.average.as_ref().map(|m| m.terms.clone()) == b.average.as_ref().map(|m| m.terms.clone())
        && a.per_sensor.len() == b.per_sensor.len()
        && a.per_sensor.iter().zip(b.per_sensor.iter()).all(|(x, y)| {
            x.sensor_id == y.sensor_id && x.count == y.count && x.average.terms == y.average.terms
        })
}

fn many_rows(n: u32) -> Vec<Record> {
    let mut records: Vec<Record> = Vec::new();
    for i in 0..n {
        records.push(row("t", &format!("S{}", i % 13), f64::from(i % 100)));
    }
    records
}

#[test]
fn verbose_table_is_ordered_and_exact() {
    let records = vec![
        row("2024-01-01T00:00:00", "S1", 60.0),
        row("2024-01-01T00:00:01", "S1", 80.0),
        row("2024-01-01T00:00:02", "S2", 90.0),
        row("2024-01-01T00:00:03", "S2", 10.0),
    ];
    let stats = process(&records, 50.0f64.to_bits(), true);
    assert_eq!(stats.total_rows, 4);
    assert_eq!(stats.filtered_rows, 3);
    assert_eq!(numbers_of(stats.average.as_ref().unwrap()), vec![60.0, 80.0, 90.0]);
    assert_eq!(stats.per_sensor.len(), 2);
    assert_eq!(stats.per_sensor[0].sensor_id, "S1");
    assert_eq!(stats.per_sensor[0].count, 2);
    assert_eq!(numbers_of(&stats.per_sensor[0].average), vec![60.0, 80.0]);
    assert_eq!(evaluate(&stats.per_sensor[0].average), 70.0);
    assert_eq!(stats.per_sensor[1].sensor_id, "S2");
    assert_eq!(stats.per_sensor[1].count, 1);
    assert_eq!(numbers_of(&stats.per_sensor[1].average), vec![90.0]);
    assert_eq!(evaluate(&stats.per_sensor[1].average), 90.0);
}

#[test]
fn without_detail_the_table_is_empty() {
    let records = vec![row("t", "S1", 60.0), row("t", "S2", 90.0)];
    let stats = process(&records, 50.0f64.to_bits(), false);
    assert_eq!(stats.filtered_rows, 2);
    assert!(stats.per_sensor.is_empty());
}

#[test]
fn no_rows_at_all() {
    let records: Vec<Record> = Vec::new();
    let stats = process(&records, 0.0f64.to_bits(), true);
    assert_eq!(stats.total_rows, 0);
    assert_eq!(stats.filtered_rows, 0);
    assert!(stats.average.is_none());
    assert!(stats.per_sensor.is_empty());
}

#[test]
fn reading_at_the_threshold_is_excluded() {
    let records = vec![row("t", "S1", 50.0), row("t", "S2", 50.0), row("t", "S3", 50.000001)];
    let stats = process(&records, 50.0f64.to_bits(), true);
    assert_eq!(stats.total_rows, 3);
    assert_eq!(stats.filtered_rows, 1);
    assert_eq!(numbers_of(stats.average.as_ref().unwrap()), vec![50.000001]);
    assert_eq!(stats.per_sensor.len(), 1);
    assert_eq!(stats.per_sensor[0].sensor_id, "S3");
}

#[test]
fn zero_threshold_excludes_both_zeros() {
    let records = vec![row("t", "S1", 0.0), row("t", "S2", -0.0), row("t", "S3", 5e-324)];
    let stats = process(&records, 0.0f64.to_bits(), false);
    assert_eq!(stats.filtered_rows, 1);
    let stats = process(&records, (-0.0f64).to_bits(), false);
    assert_eq!(stats.filtered_rows, 1);
}

#[test]
fn readings_that_are_no_numbers_never_pass() {
    let records = vec![row("t", "S1", f64::NAN), row("t", "S2", 1.0), row("t", "S3", f64::INFINITY)];
    let stats = process(&records, 0.0f64.to_bits(), true);
    assert_eq!(stats.total_rows, 3);
    assert_eq!(stats.filtered_rows, 2);
    assert_eq!(stats.per_sensor.len(), 2);
    let stats = process(&records, f64::NAN.to_bits(), true);
    assert_eq!(stats.filtered_rows, 0);
    assert!(stats.average.is_none());
    assert!(stats.per_sensor.is_empty());
}

#[test]
fn filtered_rows_count_the_readings_above_the_threshold() {
    let records = many_rows(20_000);
    let threshold = 41.5f64;
    let stats = process(&records, threshold.to_bits(), true);
    let expected: Vec<f64> = records
        .iter()
        .map(|r| f64::from_bits(r.value))
        .filter(|v| *v > threshold)
        .collect();
    assert_eq!(stats.total_rows, 20_000);
    assert_eq!(stats.filtered_rows, expected.len());
    assert_eq!(stats.filtered_rows, 11_600);
    assert!(stats.filtered_rows <= stats.total_rows);
    assert_eq!(numbers_of(stats.average.as_ref().unwrap()), expected);
    let average = evaluate(stats.average.as_ref().unwrap());
    assert!((average - 70.5).abs() < 1e-9 * 70.5);
}

#[test]
fn average_is_present_exactly_when_a_row_passes() {
    let records = many_rows(200);
    for threshold in [-1.0f64, 0.0, 50.0, 98.0, 98.5, 99.0, 100.0, f64::INFINITY] {
        let stats = process(&records, threshold.to_bits(), false);
        assert_eq!(stats.average.is_some(), stats.filtered_rows > 0);
        if let Some(mean) = stats.average.as_ref() {
            assert_eq!(mean.terms.len(), stats.filtered_rows);
        }
    }
}

#[test]
fn per_sensor_counts_add_up_to_filtered_rows() {
    let records = many_rows(20_000);
    let stats = process(&records, 30.0f64.to_bits(), true);
    let total: usize = stats.per_sensor.iter().map(|s| s.count).sum();
    assert_eq!(total, stats.filtered_rows);
    assert_eq!(stats.per_sensor.len(), 13);
    for pair in stats.per_sensor.windows(2) {
        assert!(pair[0].sensor_id.as_bytes() < pair[1].sensor_id.as_bytes());
    }
}

#[test]
fn two_runs_agree() {
    let records = many_rows(20_000);
    let first = process(&records, 25.0f64.to_bits(), true);
    let second = process(&records, 25.0f64.to_bits(), true);
    assert!(same_stats(&first, &second));
    assert_eq!(first.filtered_rows, 14_800);
}

#[test]
fn splitting_the_input_splits_the_passing_readings() {
    let records = many_rows(1_000);
    let threshold = 60.0f64.to_bits();
    let whole = process(&records, threshold, false);
    let front = process(&records[..400].to_vec(), threshold, false);
    let back = process(&records[400..].to_vec(), threshold, false);
    assert_eq!(whole.filtered_rows, front.filtered_rows + back.filtered_rows);
    let mut joined = front.average.unwrap().terms;
    joined.extend(back.average.unwrap().terms);
    assert_eq!(whole.average.unwrap().terms, joined);
}

#[test]
fn row_order_does_not_change_what_is_aggregated() {
    let records = many_rows(3_000);
    let mut reversed = records.clone();
    reversed.reverse();
    let threshold = 72.0f64.to_bits();
    let forward = process(&records, threshold, true);
    let backward = process(&reversed, threshold, true);
    assert_eq!(forward.total_rows, backward.total_rows);
    assert_eq!(forward.filtered_rows, backward.filtered_rows);
    let mut one = forward.average.unwrap().terms;
    let mut other = backward.average.unwrap().terms;
    one.sort();
    other.sort();
    assert_eq!(one, other);
    assert_eq!(forward.per_sensor.len(), backward.per_sensor.len());
    for (x, y) in forward.per_sensor.iter().zip(backward.per_sensor.iter()) {
        assert_eq!(x.sensor_id, y.sensor_id);
        assert_eq!(x.count, y.count);
    }
}
