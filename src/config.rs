//! Validation of a mapping's configured fields into a `Mapping`.

use crate::model::{Mapping, PerformanceData, ThresholdPair};
use crate::range::{parse_spec, RangeError, RangeThreshold};
use crate::text::{chars_of, push_str, string_of};
use vstd::prelude::*;

verus! {

/// The interval of a mapping that configures none, in seconds.
pub const DEFAULT_INTERVAL_SECS: u64 = 60;

/// The least interval a mapping may configure, in seconds.
pub const MIN_INTERVAL_SECS: u64 = 10;

/// The greatest interval a mapping may configure, in seconds.
pub const MAX_INTERVAL_SECS: u64 = 3600;

/// The fields of one mapping as read from the configuration, each absent
/// when not configured.
#[derive(Clone, Debug, PartialEq, Eq)]
pub struct MappingConfig {
    pub name: String,
    pub query: Option<String>,
    pub host: Option<String>,
    pub service: Option<String>,
    pub interval: Option<i64>,
    pub warning: Option<String>,
    pub critical: Option<String>,
    pub plugin_output: Option<String>,
    pub performance_enabled: Option<bool>,
    pub performance_label: Option<String>,
    pub performance_uom: Option<String>,
}

/// Why a mapping's configuration was rejected; `field` is the dotted path
/// of the offending attribute.
#[derive(Clone, Debug, PartialEq, Eq)]
pub enum ConfigError {
    /// A mandatory attribute is absent.
    MissingField { field: String },
    /// The interval is no whole number of seconds that fits 16 bits.
    InvalidInterval { field: String, value: i64 },
    /// The interval lies outside the accepted range.
    IntervalOutOfRange { field: String, value: i64 },
    /// A threshold is no valid range.
    InvalidThreshold { field: String, error: RangeError },
}

/// `mappings.<name>.<attribute>`.
pub open spec fn field_path(name: Seq<char>, attribute: Seq<char>) -> Seq<char> {
    "mappings."@ + name + "."@ + attribute
}

/// The threshold that an optional range text gives.
pub open spec fn threshold_of(text: Option<String>) -> Result<Option<RangeThreshold>, RangeError> {
    match text {
        None => Ok(None),
        Some(t) => match parse_spec(t@) {
            Ok(r) => Ok(Some(r)),
            Err(e) => Err(e),
        },
    }
}

/// The error of a configuration, if any, in the order the attributes are
/// checked: query, host, warning, critical, interval.
pub open spec fn config_error(c: MappingConfig) -> Option<ConfigError> {
    if c.query is None {
        Some(ConfigError::MissingField { field: arbitrary() })
    } else if c.host is None {
        Some(ConfigError::MissingField { field: arbitrary() })
    } else if threshold_of(c.warning) is Err {
        Some(ConfigError::InvalidThreshold { field: arbitrary(), error: threshold_of(c.warning)->Err_0 })
    } else if threshold_of(c.critical) is Err {
        Some(ConfigError::InvalidThreshold { field: arbitrary(), error: threshold_of(c.critical)->Err_0 })
    } else if c.interval is Some && (c.interval->0 < 0 || c.interval->0 > 0xffff) {
        Some(ConfigError::InvalidInterval { field: arbitrary(), value: c.interval->0 })
    } else if c.interval is Some && (c.interval->0 < MIN_INTERVAL_SECS || c.interval->0
        > MAX_INTERVAL_SECS) {
        Some(ConfigError::IntervalOutOfRange { field: arbitrary(), value: c.interval->0 })
    } else {
        None
    }
}

/// The error names the attribute that failed.
pub open spec fn error_matches(c: MappingConfig, e: ConfigError) -> bool {
    match (config_error(c), e) {
        (Some(ConfigError::MissingField { .. }), ConfigError::MissingField { field }) => field@
            == field_path(c.name@, if c.query is None {
            "query"@
        } else {
            "host"@
        }),
        (
            Some(ConfigError::InvalidThreshold { error: x, .. }),
            ConfigError::InvalidThreshold { field, error },
        ) => error == x && field@ == field_path(c.name@, if threshold_of(c.warning) is Err {
            "thresholds.warning"@
        } else {
            "thresholds.critical"@
        }),
        (
            Some(ConfigError::InvalidInterval { value: x, .. }),
            ConfigError::InvalidInterval { field, value },
        ) => value == x && field@ == field_path(c.name@, "interval"@),
        (
            Some(ConfigError::IntervalOutOfRange { value: x, .. }),
            ConfigError::IntervalOutOfRange { field, value },
        ) => value == x && field@ == field_path(c.name@, "interval"@),
        _ => false,
    }
}

/// The dotted path of an attribute of a mapping.
fn field(name: &String, attribute: &str) -> (r: String)
    ensures
        r@ == field_path(name@, attribute@),
{
    let mut out = chars_of("mappings.");
    push_str(&mut out, name.as_str());
    push_str(&mut out, ".");
    push_str(&mut out, attribute);
    string_of(&out)
}

/// Reads an optional threshold.
fn parse_threshold(text: &Option<String>) -> (r: Result<Option<RangeThreshold>, RangeError>)
    ensures
        r == threshold_of(*text),
{
    match text {
        None => Ok(None),
        Some(t) => match RangeThreshold::parse(t.as_str()) {
            Ok(r) => Ok(Some(r)),
            Err(e) => Err(e),
        },
    }
}

impl Mapping {
    /// Validates the configured fields of a mapping: query and host are
    /// mandatory, thresholds must be valid ranges, the interval defaults to
    /// 60 seconds and must lie within 10..=3600, performance records are
    /// enabled unless configured off.
    pub fn from_config(config: MappingConfig) -> (r: Result<Mapping, ConfigError>)
        ensures
            match config_error(config) {
                Some(_) => r matches Err(e) && error_matches(config, e),
                None => r matches Ok(m) && {
                    &&& m.name == config.name
                    &&& m.query == config.query->0
                    &&& m.host == config.host->0
                    &&& m.service == config.service
                    &&& m.thresholds.warning == threshold_of(config.warning)->Ok_0
                    &&& m.thresholds.critical == threshold_of(config.critical)->Ok_0
                    &&& m.interval == match config.interval {
                        Some(i) => i as u64,
                        None => DEFAULT_INTERVAL_SECS,
                    }
                    &&& m.plugin_output == config.plugin_output
                    &&& m.performance_data.enabled == match config.performance_enabled {
                        Some(b) => b,
                        None => true,
                    }
                    &&& m.performance_data.label == config.performance_label
                    &&& m.performance_data.uom == config.performance_uom
                },
            },
    {
        let query = match config.query {
            Some(q) => q,
            None => {
                return Err(ConfigError::MissingField { field: field(&config.name, "query") });
            },
        };
        let host = match config.host {
            Some(h) => h,
            None => {
                return Err(ConfigError::MissingField { field: field(&config.name, "host") });
            },
        };
        let warning = match parse_threshold(&config.warning) {
            Ok(w) => w,
            Err(error) => {
                return Err(
                    ConfigError::InvalidThreshold {
                        field: field(&config.name, "thresholds.warning"),
                        error,
                    },
                );
            },
        };
        let critical = match parse_threshold(&config.critical) {
            Ok(c) => c,
            Err(error) => {
                return Err(
                    ConfigError::InvalidThreshold {
                        field: field(&config.name, "thresholds.critical"),
                        error,
                    },
                );
            },
        };
        let interval = match config.interval {
            None => DEFAULT_INTERVAL_SECS,
            Some(i) => {
                if i < 0 || i > 0xffff {
                    return Err(
                        ConfigError::InvalidInterval { field: field(&config.name, "interval"), value: i },
                    );
                }
                if i < MIN_INTERVAL_SECS as i64 || i > MAX_INTERVAL_SECS as i64 {
                    return Err(
                        ConfigError::IntervalOutOfRange {
                            field: field(&config.name, "interval"),
                            value: i,
                        },
                    );
                }
                i as u64
            },
        };
        let enabled = match config.performance_enabled {
            Some(b) => b,
            None => true,
        };
        Ok(
            Mapping {
                name: config.name,
                query,
                thresholds: ThresholdPair { warning, critical },
                host,
                service: config.service,
                interval,
                plugin_output: config.plugin_output,
                performance_data: PerformanceData {
                    enabled,
                    label: config.performance_label,
                    uom: config.performance_uom,
                },
            },
        )
    }
}

} // verus!
