use vec2check::config::{ConfigError, MappingConfig};
use vec2check::model::{Mapping, PerformanceData, ThresholdPair};
use vec2check::range::{RangeError, RangeThreshold};
use vec2check::report::build_payload;

fn mapping(service: Option<&str>) -> Mapping {
    Mapping {
        name: "m".to_string(),
        query: "up".to_string(),
        thresholds: ThresholdPair { warning: None, critical: None },
        host: "h".to_string(),
        service: service.map(|s| s.to_string()),
        interval: 60,
        plugin_output: None,
        performance_data: PerformanceData::default(),
    }
}

fn config() -> MappingConfig {
    MappingConfig {
        name: "m".to_string(),
        query: Some("up".to_string()),
        host: Some("h".to_string()),
        service: None,
        interval: None,
        warning: None,
        critical: None,
        plugin_output: None,
        performance_enabled: None,
        performance_label: None,
        performance_uom: None,
    }
}

#[test]
fn host_payload() {
    let p = build_payload(&mapping(None), 1, "out".to_string(), None, 5, 7);
    assert_eq!(p.obj_type, "Host");
    assert_eq!(p.filter, "host.name==hostname");
    assert_eq!(p.filter_vars, vec![("hostname".to_string(), "h".to_string())]);
    assert_eq!(p.ttl, 70);
    assert_eq!((p.exit_status, p.execution_start, p.execution_end), (1, 5, 7));
    assert_eq!(p.performance_data, None);
}

#[test]
fn service_payload() {
    let p = build_payload(&mapping(Some("s")), 2, "out".to_string(), Some(vec!["r".to_string()]), 5, 7);
    assert_eq!(p.obj_type, "Service");
    assert_eq!(p.filter, "host.name==hostname && service.name==servicename");
    assert_eq!(
        p.filter_vars,
        vec![
            ("hostname".to_string(), "h".to_string()),
            ("servicename".to_string(), "s".to_string())
        ]
    );
    assert_eq!(p.performance_data, Some(vec!["r".to_string()]));
}

#[test]
fn config_defaults() {
    let m = Mapping::from_config(config()).unwrap();
    assert_eq!(m.interval, 60);
    assert!(m.performance_data.enabled);
    assert_eq!(m.thresholds, ThresholdPair { warning: None, critical: None });
}

#[test]
fn config_errors() {
    let mut c = config();
    c.query = None;
    assert_eq!(
        Mapping::from_config(c),
        Err(ConfigError::MissingField { field: "mappings.m.query".to_string() })
    );
    let mut c = config();
    c.host = None;
    assert_eq!(
        Mapping::from_config(c),
        Err(ConfigError::MissingField { field: "mappings.m.host".to_string() })
    );
    let mut c = config();
    c.critical = Some("5:1".to_string());
    assert_eq!(
        Mapping::from_config(c),
        Err(ConfigError::InvalidThreshold {
            field: "mappings.m.thresholds.critical".to_string(),
            error: RangeError::StartGreaterThanEnd
        })
    );
    let mut c = config();
    c.interval = Some(5);
    assert_eq!(
        Mapping::from_config(c),
        Err(ConfigError::IntervalOutOfRange { field: "mappings.m.interval".to_string(), value: 5 })
    );
    let mut c = config();
    c.interval = Some(70000);
    assert_eq!(
        Mapping::from_config(c),
        Err(ConfigError::InvalidInterval { field: "mappings.m.interval".to_string(), value: 70000 })
    );
}

#[test]
fn config_values_carry_over() {
    let mut c = config();
    c.interval = Some(3600);
    c.warning = Some("@10".to_string());
    c.service = Some("s".to_string());
    c.performance_enabled = Some(false);
    let m = Mapping::from_config(c).unwrap();
    assert_eq!(m.interval, 3600);
    assert_eq!(m.thresholds.warning, Some(RangeThreshold::parse("@0:10").unwrap()));
    assert_eq!(m.service, Some("s".to_string()));
    assert!(!m.performance_data.enabled);
}
