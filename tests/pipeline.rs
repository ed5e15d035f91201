use std::collections::BTreeMap;
use vec2check::check::{check_query_result, process_query_result, CheckResult};
use vec2check::sample::Sample;
use vec2check::labels::LabelSet;
use vec2check::model::{Mapping, PerformanceData, ThresholdPair, TimeSeries};
use vec2check::range::RangeThreshold;

fn dec(v: f64) -> Sample {
    Sample::from_text(&format!("{}", v)).unwrap()
}

fn range(text: &str) -> RangeThreshold {
    RangeThreshold::parse(text).unwrap()
}

fn label_set(map: &BTreeMap<String, String>) -> LabelSet {
    let mut labels = LabelSet::new();
    for (k, v) in map {
        labels.insert(k.clone(), v.clone());
    }
    labels
}

fn seed_mapping() -> Mapping {
    Mapping {
        name: "Node status".to_string(),
        query: r#"kube_node_status_condition{cluster="production",condition!="Ready",status="true"}"#
            .to_string(),
        thresholds: ThresholdPair { warning: None, critical: None },
        host: "foo".to_string(),
        service: None,
        interval: 60,
        plugin_output: None,
        performance_data: PerformanceData::default(),
    }
}

fn seed_checksums() -> Vec<String> {
    vec![
        "a98192".to_string(),
        "1a618b".to_string(),
        "638ae0".to_string(),
        "c7358d".to_string(),
        "6ed77d".to_string(),
        "6d14de".to_string(),
        "bcc77b".to_string(),
        "8e38a1".to_string(),
    ]
}

fn seed_labels() -> Vec<BTreeMap<String, String>> {
    let mut label_set = vec![];
    for (condition, node) in [
        ("DiskPressure", "worker-01"),
        ("DiskPressure", "worker-02"),
        ("MemoryPressure", "worker-01"),
        ("MemoryPressure", "worker-02"),
        ("NetworkUnavailable", "worker-01"),
        ("NetworkUnavailable", "worker-02"),
        ("PIDPressure", "worker-01"),
        ("PIDPressure", "worker-02"),
    ] {
        label_set.push(BTreeMap::from([
            ("cluster".to_string(), "production".to_string()),
            ("condition".to_string(), condition.to_string()),
            ("node".to_string(), node.to_string()),
            ("namespace".to_string(), "monitoring".to_string()),
            ("status".to_string(), "true".to_string()),
        ]));
    }
    label_set
}

fn series(label_set: &[BTreeMap<String, String>], values: &[f64]) -> Vec<TimeSeries> {
    label_set
        .iter()
        .zip(values.iter())
        .map(|(labels, value)| TimeSeries { labels: label_set_of(labels), value: dec(*value) })
        .collect()
}

fn label_set_of(map: &BTreeMap<String, String>) -> LabelSet {
    label_set(map)
}

fn outcome(r: CheckResult) -> (String, u8, Option<Vec<String>>) {
    (r.plugin_output, r.exit_value, r.performance_data)
}

#[test]
fn test_process_query_result_for_host_objects() {
    let label_set = seed_labels();
    let checksums = seed_checksums();
    let values = [0.0, 0.0, 0.0, 5.1238712, 0.0, 0.0, 0.0, 0.0];
    let time_series = series(&label_set, &values);

    let mut mapping = seed_mapping();

    mapping.performance_data.enabled = false;
    let expected_output =
        "[UP] PromQL query returned multiple results in the range 0.00..=5.12".to_string();
    assert_eq!(
        outcome(process_query_result(&mapping, time_series.clone()).unwrap()),
        (expected_output.clone(), 0, None)
    );

    mapping.performance_data.enabled = true;
    let perfdata = values
        .iter()
        .zip(checksums.iter())
        .map(|(value, checksum)| format!("'{}/{}'={};;;;", mapping.name, checksum, value))
        .collect::<Vec<String>>();
    assert_eq!(
        outcome(process_query_result(&mapping, time_series).unwrap()),
        (expected_output, 0, Some(perfdata))
    );

    let time_series = series(&label_set[0..1], &[12.34534534]);
    let expected_output = "[UP] PromQL query returned one result (12.35)".to_string();
    let perfdata = vec![format!(
        "'{}/{}'={};;;;",
        mapping.name,
        checksums[0].clone(),
        12.34534534
    )];
    assert_eq!(
        outcome(process_query_result(&mapping, time_series.clone()).unwrap()),
        (expected_output, 0, Some(perfdata))
    );
}

#[test]
fn test_process_query_result_for_service_objects() {
    let label_set = seed_labels();
    let checksums = seed_checksums();
    let values = [0.0, 0.0, 0.0, 5.1238712, 0.0, 0.0, 0.0, 0.0];
    let time_series = series(&label_set, &values);

    let mut mapping = seed_mapping();
    mapping.service = Some("bar".to_string());

    mapping.performance_data.enabled = false;
    let expected_output =
        "[OK] PromQL query returned multiple results in the range 0.00..=5.12".to_string();
    assert_eq!(
        outcome(process_query_result(&mapping, time_series.clone()).unwrap()),
        (expected_output.clone(), 0, None)
    );

    mapping.performance_data.enabled = true;
    mapping.thresholds.warning = Some(range("@10:"));
    let perfdata = values
        .iter()
        .zip(checksums.iter())
        .map(|(value, checksum)| format!("'{}/{}'={};@10:~;;;", mapping.name, checksum, value))
        .collect::<Vec<String>>();
    assert_eq!(
        outcome(process_query_result(&mapping, time_series).unwrap()),
        (expected_output, 0, Some(perfdata))
    );

    let time_series = series(&label_set[0..1], &[9.21837821321]);
    mapping.thresholds.critical = Some(range("10"));
    let expected_output = "[OK] PromQL query returned one result (9.22)".to_string();
    let perfdata = vec![format!(
        "'{}/{}'={};@10:~;0:10;;",
        mapping.name,
        checksums[0].clone(),
        9.21837821321
    )];
    assert_eq!(
        outcome(process_query_result(&mapping, time_series.clone()).unwrap()),
        (expected_output, 0, Some(perfdata))
    );
}

#[test]
fn test_process_query_result_for_host_objects_with_warning() {
    let label_set = seed_labels();
    let checksums = seed_checksums();
    let values = [0.0, 0.0, 0.0, 5.1238712, 0.0, 0.0, 0.0, 0.0];
    let time_series = series(&label_set, &values);

    let mut mapping = seed_mapping();
    mapping.thresholds.warning = Some(range("@10"));
    mapping.thresholds.critical = Some(range("20"));
    mapping.performance_data.uom = Some("ms".to_string());

    let expected_output = "[UP] PromQL query returned multiple results within the warning range (values 0.00..=5.12 overlap with @0:10)".to_string();
    let perfdata = values
        .iter()
        .zip(checksums.iter())
        .map(|(value, checksum)| format!("'{}/{}'={}ms;@0:10;0:20;;", mapping.name, checksum, value))
        .collect::<Vec<String>>();
    assert_eq!(
        outcome(process_query_result(&mapping, time_series).unwrap()),
        (expected_output, 0, Some(perfdata))
    );

    let time_series = series(&label_set[0..1], &[9.34534534]);
    let expected_output =
        "[UP] PromQL query returned one result within the warning range (9.35 in @0:10)".to_string();
    let perfdata = vec![format!(
        "'{}/{}'={}ms;@0:10;0:20;;",
        mapping.name,
        checksums[0].clone(),
        9.34534534
    )];
    assert_eq!(
        outcome(process_query_result(&mapping, time_series.clone()).unwrap()),
        (expected_output, 0, Some(perfdata))
    );
}

#[test]
fn test_process_query_result_for_service_objects_with_warning() {
    let label_set = seed_labels();
    let checksums = seed_checksums();
    let values = [0.0, 0.0, 0.0, 5.1238712, 0.0, 0.0, 0.0, 0.0];
    let time_series = series(&label_set, &values);

    let mut mapping = seed_mapping();
    mapping.service = Some("bar".to_string());
    mapping.thresholds.warning = Some(range("@10"));
    mapping.thresholds.critical = Some(range("20"));

    let expected_output = "[WARNING] PromQL query returned multiple results within the warning range (values 0.00..=5.12 overlap with @0:10)".to_string();
    let perfdata = values
        .iter()
        .zip(checksums.iter())
        .map(|(value, checksum)| format!("'{}/{}'={};@0:10;0:20;;", mapping.name, checksum, value))
        .collect::<Vec<String>>();
    assert_eq!(
        outcome(process_query_result(&mapping, time_series).unwrap()),
        (expected_output, 1, Some(perfdata))
    );

    let time_series = series(&label_set[0..1], &[9.34534534]);
    let expected_output =
        "[WARNING] PromQL query returned one result within the warning range (9.35 in @0:10)"
            .to_string();
    let perfdata = vec![format!(
        "'{}/{}'={};@0:10;0:20;;",
        mapping.name,
        checksums[0].clone(),
        9.34534534
    )];
    assert_eq!(
        outcome(process_query_result(&mapping, time_series.clone()).unwrap()),
        (expected_output, 1, Some(perfdata))
    );
}

#[test]
fn test_process_query_result_for_host_objects_with_critical() {
    let label_set = seed_labels();
    let checksums = seed_checksums();
    let values = [0.0, 0.0, 0.0, 5.1238712, 0.0, 0.0, 25.4534534, 0.0];
    let time_series = series(&label_set, &values);

    let mut mapping = seed_mapping();
    mapping.thresholds.warning = Some(range("@10"));
    mapping.thresholds.critical = Some(range("@20:30"));

    let expected_output = "[DOWN] PromQL query returned multiple results within the critical range (values 0.00..=25.45 overlap with @20:30)".to_string();
    let perfdata = values
        .iter()
        .zip(checksums.iter())
        .map(|(value, checksum)| format!("'{}/{}'={};@0:10;@20:30;;", mapping.name, checksum, value))
        .collect::<Vec<String>>();
    assert_eq!(
        outcome(process_query_result(&mapping, time_series).unwrap()),
        (expected_output, 1, Some(perfdata))
    );

    mapping.thresholds.warning = None;
    let time_series = series(&label_set[0..1], &[28.34534534]);
    let expected_output =
        "[DOWN] PromQL query returned one result within the critical range (28.35 in @20:30)"
            .to_string();
    let perfdata = vec![format!(
        "'{}/{}'={};;@20:30;;",
        mapping.name,
        checksums[0].clone(),
        28.34534534
    )];
    assert_eq!(
        outcome(process_query_result(&mapping, time_series.clone()).unwrap()),
        (expected_output, 1, Some(perfdata))
    );
}

#[test]
fn test_process_query_result_for_service_objects_with_critical() {
    let label_set = seed_labels();
    let checksums = seed_checksums();
    let values = [0.0, 0.0, 0.0, 5.1238712, 0.0, 0.0, 25.4534534, 0.0];
    let time_series = series(&label_set, &values);

    let mut mapping = seed_mapping();
    mapping.service = Some("bar".to_string());
    mapping.thresholds.warning = Some(range("@10"));
    mapping.thresholds.critical = Some(range("@20:30"));

    let expected_output = "[CRITICAL] PromQL query returned multiple results within the critical range (values 0.00..=25.45 overlap with @20:30)".to_string();
    let perfdata = values
        .iter()
        .zip(checksums.iter())
        .map(|(value, checksum)| format!("'{}/{}'={};@0:10;@20:30;;", mapping.name, checksum, value))
        .collect::<Vec<String>>();
    assert_eq!(
        outcome(process_query_result(&mapping, time_series).unwrap()),
        (expected_output, 2, Some(perfdata))
    );

    mapping.thresholds.warning = None;
    let time_series = series(&label_set[0..1], &[28.34534534]);
    let expected_output =
        "[CRITICAL] PromQL query returned one result within the critical range (28.35 in @20:30)"
            .to_string();
    let perfdata = vec![format!(
        "'{}/{}'={};;@20:30;;",
        mapping.name,
        checksums[0].clone(),
        28.34534534
    )];
    assert_eq!(
        outcome(process_query_result(&mapping, time_series.clone()).unwrap()),
        (expected_output, 2, Some(perfdata))
    );
}

#[test]
fn no_thresholds_single_value_is_ok_or_up() {
    let label_set = seed_labels();
    let mut mapping = seed_mapping();
    let r = outcome(process_query_result(&mapping, series(&label_set[0..1], &[5.0])).unwrap());
    assert_eq!(r.0, "[UP] PromQL query returned one result (5)");
    assert_eq!(r.1, 0);
    mapping.service = Some("svc".to_string());
    let r = outcome(process_query_result(&mapping, series(&label_set[0..1], &[5.0])).unwrap());
    assert_eq!(r.0, "[OK] PromQL query returned one result (5)");
    assert_eq!(r.1, 0);
}

#[test]
fn critical_inside_range_reports_down_or_critical() {
    let label_set = seed_labels();
    let mut mapping = seed_mapping();
    mapping.thresholds.critical = Some(range("@10:20"));
    let r = outcome(process_query_result(&mapping, series(&label_set[0..1], &[15.0])).unwrap());
    assert!(r.0.contains("DOWN"));
    assert!(r.0.contains("@10:20"));
    assert_eq!(r.1, 1);
    mapping.service = Some("svc".to_string());
    let r = outcome(process_query_result(&mapping, series(&label_set[0..1], &[15.0])).unwrap());
    assert!(r.0.contains("CRITICAL"));
    assert_eq!(r.1, 2);
}

#[test]
fn empty_result_for_service_is_unknown() {
    let mut mapping = seed_mapping();
    mapping.service = Some("svc".to_string());
    let r = outcome(check_query_result(&mapping, vec![]).unwrap());
    assert_eq!(r.0, "[UNKNOWN] PromQL query result set is empty");
    assert_eq!(r.1, 3);
    assert_eq!(r.2, None);
}

#[test]
fn empty_result_for_host_is_down() {
    let mapping = seed_mapping();
    let r = outcome(check_query_result(&mapping, vec![]).unwrap());
    assert_eq!(r.0, "[DOWN] PromQL query result set is empty");
    assert_eq!(r.1, 1);
    assert_eq!(r.2, None);
}

#[test]
fn critical_takes_precedence_over_warning() {
    let label_set = seed_labels();
    let mut mapping = seed_mapping();
    mapping.service = Some("svc".to_string());
    mapping.thresholds.warning = Some(range("@0:50"));
    mapping.thresholds.critical = Some(range("@10:20"));
    let r = outcome(process_query_result(&mapping, series(&label_set[0..2], &[3.0, 15.0])).unwrap());
    assert_eq!(r.1, 2);
    assert!(r.0.starts_with("[CRITICAL]"));
}

#[test]
fn aggregate_is_independent_of_point_order() {
    let label_set = seed_labels();
    let mut mapping = seed_mapping();
    mapping.service = Some("svc".to_string());
    mapping.thresholds.warning = Some(range("@5:9"));
    mapping.thresholds.critical = Some(range("@10:20"));
    let a = outcome(
        process_query_result(&mapping, series(&label_set[0..3], &[1.0, 6.0, 15.0])).unwrap(),
    );
    let b = outcome(
        process_query_result(&mapping, series(&label_set[0..3], &[15.0, 1.0, 6.0])).unwrap(),
    );
    assert_eq!(a.1, 2);
    assert_eq!(a.1, b.1);
    assert_eq!(a.0, b.0);
}
