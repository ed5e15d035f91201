use std::collections::BTreeMap;
use vec2check::sample::Sample;
use vec2check::labels::LabelSet;
use vec2check::model::{Data, Mapping, PerformanceData, ThresholdPair, TimeSeries};
use vec2check::output::{format_default_multiple_items, format_default_single_item};
use vec2check::perfdata::{check_label, format_performance_data, performance_records, LabelError};
use vec2check::range::RangeThreshold;
use vec2check::severity::exit_status_to_state;

fn dec(v: f64) -> Sample {
    Sample::from_text(&format!("{}", v)).unwrap()
}

fn range(text: &str) -> RangeThreshold {
    RangeThreshold::parse(text).unwrap()
}

fn mapping(
    name: &str,
    warning: Option<&str>,
    critical: Option<&str>,
    service: Option<&str>,
    performance_data: PerformanceData,
) -> Mapping {
    Mapping {
        name: name.to_string(),
        query: "up{random_label=\"random_value\"}".to_string(),
        thresholds: ThresholdPair { warning: warning.map(range), critical: critical.map(range) },
        host: "foo".to_string(),
        service: service.map(|s| s.to_string()),
        interval: 60,
        plugin_output: None,
        performance_data,
    }
}

fn data(pairs: &[(&str, &str)], value: f64) -> Data {
    let mut labels = LabelSet::new();
    for (k, v) in pairs {
        labels.insert(k.to_string(), v.to_string());
    }
    Data::from(false, TimeSeries { labels, value: dec(value) }, 0, 0, "UP".to_string())
}

#[test]
fn test_format_default_single_item_hard_host_alert() {
    let mapping = mapping("foobar", None, Some("@10:20"), None, PerformanceData::default());
    let result =
        "[DOWN] PromQL query returned one result within the critical range (15 in @10:20)"
            .to_string();
    assert_eq!(format_default_single_item(&mapping, &dec(15.0), 2), result);
}

#[test]
fn test_format_default_single_item_soft_host_alert() {
    let mapping = mapping("foobar", Some("@10"), Some("@10:20"), None, PerformanceData::default());
    let result =
        "[UP] PromQL query returned one result within the warning range (5 in @0:10)".to_string();
    assert_eq!(format_default_single_item(&mapping, &dec(5.0), 1), result);
}

#[test]
fn test_format_default_single_item_no_host_alert() {
    let mapping = mapping("foobar", Some("@5:10"), Some("@10:20"), None, PerformanceData::default());
    let result = "[UP] PromQL query returned one result (2)".to_string();
    assert_eq!(format_default_single_item(&mapping, &dec(2.0), 0), result);
}

#[test]
fn test_format_default_single_item_crit_service_alert() {
    let mapping =
        mapping("foobar", None, Some("@10:20"), Some("bar"), PerformanceData::default());
    let result =
        "[CRITICAL] PromQL query returned one result within the critical range (15 in @10:20)"
            .to_string();
    assert_eq!(format_default_single_item(&mapping, &dec(15.0), 2), result);
}

#[test]
fn test_format_default_single_item_warn_service_alert() {
    let mapping =
        mapping("foobar", Some("@10"), Some("@10:20"), Some("bar"), PerformanceData::default());
    let result =
        "[WARNING] PromQL query returned one result within the warning range (5 in @0:10)"
            .to_string();
    assert_eq!(format_default_single_item(&mapping, &dec(5.0), 1), result);
}

#[test]
fn test_format_default_single_item_no_service_alert() {
    let mapping =
        mapping("foobar", Some("@5:10"), Some("@10:20"), Some("bar"), PerformanceData::default());
    let result = "[OK] PromQL query returned one result (2)".to_string();
    assert_eq!(format_default_single_item(&mapping, &dec(2.0), 0), result);
}

#[test]
fn multiple_items_report_the_value_span() {
    let mapping =
        mapping("foobar", Some("@10"), Some("@20:30"), Some("bar"), PerformanceData::default());
    let values = vec![dec(3.0), dec(25.456), dec(-1.5)];
    assert_eq!(
        format_default_multiple_items(&mapping, &values, 2),
        "[CRITICAL] PromQL query returned multiple results within the critical range (values -1.50..=25.46 overlap with @20:30)"
    );
}

#[test]
fn multiple_items_pass_over_not_a_number() {
    let mapping = mapping("foobar", None, None, None, PerformanceData::default());
    let values = vec![dec(f64::NAN), dec(3.0), dec(f64::INFINITY)];
    assert_eq!(
        format_default_multiple_items(&mapping, &values, 0),
        "[UP] PromQL query returned multiple results in the range 3.00..=inf"
    );
}

#[test]
fn test_format_performance_data() {
    let mapping = mapping("foobar", None, None, None, PerformanceData::default());
    let data = vec![
        data(&[("some_label", "some_value"), ("another_label", "another_value")], 5.0),
        data(&[("foo_label", "foo_value"), ("bar_label", "bar_value")], 15.0),
        data(&[("test_label", "test_value"), ("z_label", "z_value")], 20.5),
    ];
    let result = vec![
        format!("'foobar/eaa8c4'=5;;;;"),
        format!("'foobar/6c72e2'=15;;;;"),
        format!("'foobar/c9308d'=20.5;;;;"),
    ];
    assert_eq!(format_performance_data(&mapping, &data).unwrap(), result);
}

// The label template "{{ name }}" renders the mapping name for every point.
#[test]
fn test_format_performance_data_with_duplicate_label_name() {
    let performance_data = PerformanceData {
        enabled: true,
        label: Some("{{ name }}".to_string()),
        uom: None,
    };
    let mapping = mapping("random name", None, None, None, performance_data);
    let data = vec![
        data(&[("some_label", "some_value"), ("another_label", "another_value")], 5.0),
        data(&[("foo_label", "foo_value"), ("bar_label", "bar_value")], 15.0),
    ];
    let labels = vec!["random name".to_string(), "random name".to_string()];
    assert!(performance_records(&mapping, &data, &labels).is_err(),);
}

// The label template renders each point's value of `some_label`.
#[test]
fn test_format_performance_data_from_result_label_set() {
    let performance_data = PerformanceData {
        enabled: true,
        label: Some("{{ metric.some_label }}".to_string()),
        uom: Some("%".to_string()),
    };
    let mapping = mapping("random name", None, None, None, performance_data);
    let data = vec![
        data(&[("some_label", "some_value"), ("another_label", "another_value")], 5.0),
        data(&[("some_label", "foo_value"), ("bar_label", "bar_value")], 15.0),
    ];
    let labels = vec!["some_value".to_string(), "foo_value".to_string()];
    let result = vec![format!("'some_value'=5%;;;;"), format!("'foo_value'=15%;;;;")];
    assert_eq!(performance_records(&mapping, &data, &labels).unwrap(), result);
}

#[test]
fn test_format_performance_data_from_result_label_set_with_duplicates() {
    let performance_data = PerformanceData {
        enabled: true,
        label: Some("{{ metric.some_label }}".to_string()),
        uom: None,
    };
    let mapping = mapping("random name", None, None, None, performance_data);
    let data = vec![
        data(&[("some_label", "some_value"), ("another_label", "another_value")], 5.0),
        data(&[("some_label", "some_value"), ("bar_label", "bar_value")], 5.0),
    ];
    let labels = vec!["some_value".to_string(), "some_value".to_string()];
    assert!(performance_records(&mapping, &data, &labels).is_err(),);
}

#[test]
fn duplicate_default_labels_fail_without_partial_output() {
    let mapping = mapping("foobar", None, None, None, PerformanceData::default());
    let data = vec![
        data(&[("a", "1")], 1.0),
        data(&[("b", "2")], 2.0),
        data(&[("a", "1")], 3.0),
    ];
    assert_eq!(format_performance_data(&mapping, &data), Err(LabelError::Duplicate));
}

#[test]
fn label_checks_name_each_error() {
    let mut seen = vec![];
    assert_eq!(check_label(&mut seen, ""), Err(LabelError::Empty));
    assert_eq!(check_label(&mut seen, "a\nb"), Err(LabelError::MultiLine));
    assert_eq!(check_label(&mut seen, "a\n"), Ok(()));
    assert_eq!(check_label(&mut seen, "a\n"), Err(LabelError::Duplicate));
    assert_eq!(seen, vec!["a\n".to_string()]);
}

#[test]
fn records_carry_unit_and_ranges() {
    let performance_data =
        PerformanceData { enabled: true, label: None, uom: Some("ms".to_string()) };
    let mapping = mapping("m", Some("~:5"), Some("@-1.5:20.0"), None, performance_data);
    let data = vec![data(&[("k", "v")], -0.25)];
    let labels = vec!["x".to_string()];
    assert_eq!(
        performance_records(&mapping, &data, &labels),
        Ok(vec!["'x'=-0.25ms;~:5;@-1.5:20;;".to_string()])
    );
}

#[test]
fn state_words() {
    let svc = "s".to_string();
    assert_eq!(exit_status_to_state(Some(&svc), &0), "OK");
    assert_eq!(exit_status_to_state(Some(&svc), &1), "WARNING");
    assert_eq!(exit_status_to_state(Some(&svc), &2), "CRITICAL");
    assert_eq!(exit_status_to_state(Some(&svc), &3), "UNKNOWN");
    assert_eq!(exit_status_to_state(None, &0), "UP");
    assert_eq!(exit_status_to_state(None, &1), "UP");
    assert_eq!(exit_status_to_state(None, &2), "DOWN");
    assert_eq!(exit_status_to_state(None, &3), "DOWN");
}

#[test]
fn test_data_init_for_host_object() {
    let mut labels = BTreeMap::new();
    labels.insert("test_label".to_string(), "test_value".to_string());
    let mut set = LabelSet::new();
    for (k, v) in &labels {
        set.insert(k.clone(), v.clone());
    }
    let time_series = TimeSeries { labels: set.clone(), value: dec(5.0) };
    let result = Data {
        labels: set,
        value: dec(5.0),
        is_ok: None,
        is_warning: None,
        is_critical: None,
        is_up: Some(true),
        is_down: Some(false),
        real_exit_value: 0,
        temp_exit_value: 0,
        exit_status: "UP".to_string(),
    };
    assert_eq!(Data::from(false, time_series, 0, 0, "UP".to_string()), result);
}

#[test]
fn test_data_init_for_service_object() {
    let mut labels = BTreeMap::new();
    labels.insert("test_label".to_string(), "test_value".to_string());
    let mut set = LabelSet::new();
    for (k, v) in &labels {
        set.insert(k.clone(), v.clone());
    }
    let time_series = TimeSeries { labels: set.clone(), value: dec(5.0) };
    let result = Data {
        labels: set,
        value: dec(5.0),
        is_ok: Some(true),
        is_warning: Some(false),
        is_critical: Some(false),
        is_up: None,
        is_down: None,
        real_exit_value: 0,
        temp_exit_value: 0,
        exit_status: "OK".to_string(),
    };
    assert_eq!(Data::from(true, time_series, 0, 0, "OK".to_string()), result);
}
