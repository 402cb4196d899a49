use sensor_stats::grouped::{compute_per_sensor_stats, group_by_sensor};
use sensor_stats::{Record, SensorStats};

fn reading(sensor_id: &str, value: f64) -> Record {
    Record {
        timestamp: "2024-01-01T00:00:00".to_string(),
        sensor_id: sensor_id.to_string(),
        value: value.to_bits(),
    }
}

fn numbers(terms: &[u64]) -> Vec<f64> {
    terms.iter().map(|bits| f64::from_bits(*bits)).collect()
}

fn sensors(stats: &[SensorStats]) -> Vec<String> {
    stats.iter().map(|s| s.sensor_id.clone()).collect()
}

#[test]
fn grouping_nothing_gives_no_entry() {
    let kept: Vec<&Record> = Vec::new();
    assert!(group_by_sensor(&kept).is_empty());
    let records: Vec<Record> = Vec::new();
    assert!(compute_per_sensor_stats(&records, 0.0f64.to_bits()).is_empty());
}

#[test]
fn grouping_takes_every_record_it_is_given() {
    let records = vec![reading("b", 1.0), reading("a", 2.0), reading("b", 3.0)];
    let kept: Vec<&Record> = records.iter().collect();
    let stats = group_by_sensor(&kept);
    assert_eq!(sensors(&stats), vec!["a", "b"]);
    assert_eq!(stats[0].count, 1);
    assert_eq!(numbers(&stats[0].average.terms), vec![2.0]);
    assert_eq!(stats[1].count, 2);
    assert_eq!(numbers(&stats[1].average.terms), vec![1.0, 3.0]);
}

#[test]
fn entries_ascend_by_sensor_without_repeats() {
    let records = vec![
        reading("S2", 9.0),
        reading("S10", 9.0),
        reading("s1", 9.0),
        reading("S1", 9.0),
        reading("é", 9.0),
        reading("S2", 9.0),
        reading("", 9.0),
        reading("S10", 9.0),
        reading("Z", 9.0),
    ];
    let stats = compute_per_sensor_stats(&records, 0.0f64.to_bits());
    assert_eq!(sensors(&stats), vec!["", "S1", "S10", "S2", "Z", "s1", "é"]);
    for pair in stats.windows(2) {
        assert!(pair[0].sensor_id < pair[1].sensor_id);
    }
}

#[test]
fn only_readings_above_the_threshold_are_grouped() {
    let records = vec![
        reading("S1", 60.0),
        reading("S3", 50.0),
        reading("S1", 80.0),
        reading("S2", 90.0),
        reading("S2", 10.0),
        reading("S4", f64::NAN),
    ];
    let stats = compute_per_sensor_stats(&records, 50.0f64.to_bits());
    assert_eq!(sensors(&stats), vec!["S1", "S2"]);
    assert_eq!(stats[0].count, 2);
    assert_eq!(numbers(&stats[0].average.terms), vec![60.0, 80.0]);
    assert_eq!(stats[1].count, 1);
    assert_eq!(numbers(&stats[1].average.terms), vec![90.0]);
}

#[test]
fn counts_add_up_to_the_records_kept() {
    let mut records: Vec<Record> = Vec::new();
    for i in 0..1000u32 {
        records.push(reading(&format!("sensor-{}", i % 7), f64::from(i)));
    }
    let threshold = 499.5f64.to_bits();
    let stats = compute_per_sensor_stats(&records, threshold);
    assert_eq!(stats.len(), 7);
    let total: usize = stats.iter().map(|s| s.count).sum();
    assert_eq!(total, 500);
    for entry in stats.iter() {
        assert!(entry.count > 0);
        assert_eq!(entry.count, entry.average.terms.len());
    }
}

#[test]
fn readings_of_a_sensor_keep_file_order() {
    let mut records: Vec<Record> = Vec::new();
    for i in 0..5000u32 {
        records.push(reading(if i % 2 == 0 { "even" } else { "odd" }, f64::from(i)));
    }
    let stats = compute_per_sensor_stats(&records, (-1.0f64).to_bits());
    assert_eq!(sensors(&stats), vec!["even", "odd"]);
    let even: Vec<f64> = (0..5000u32).filter(|i| i % 2 == 0).map(f64::from).collect();
    let odd: Vec<f64> = (0..5000u32).filter(|i| i % 2 == 1).map(f64::from).collect();
    assert_eq!(numbers(&stats[0].average.terms), even);
    assert_eq!(numbers(&stats[1].average.terms), odd);
}

#[test]
fn no_reading_above_the_threshold_gives_no_entry() {
    let records = vec![reading("S1", 1.0), reading("S2", 2.0)];
    assert!(compute_per_sensor_stats(&records, 100.0f64.to_bits()).is_empty());
}
