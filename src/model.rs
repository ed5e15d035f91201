//! The configuration unit (mapping), query results and derived data points.

use crate::sample::Sample;
use crate::labels::LabelSet;
use crate::range::RangeThreshold;
use vstd::prelude::*;

verus! {

/// The warning and critical thresholds of a mapping; critical takes
/// precedence when both fire.
#[derive(Clone, Copy, Debug, PartialEq, Eq, Structural)]
pub struct ThresholdPair {
    pub warning: Option<RangeThreshold>,
    pub critical: Option<RangeThreshold>,
}

/// Settings of the performance records of a mapping.
#[derive(Clone, Debug, PartialEq, Eq)]
pub struct PerformanceData {
    pub enabled: bool,
    /// A template for the record labels, rendered per data point.
    pub label: Option<String>,
    /// The unit of measurement appended to each value.
    pub uom: Option<String>,
}

impl Default for PerformanceData {
    /// Enabled, with default labels and no unit.
    fn default() -> (r: PerformanceData)
        ensures
            r.enabled,
            r.label is None,
            r.uom is None,
    {
        PerformanceData { enabled: true, label: None, uom: None }
    }
}

/// One configured check: a query, the object it updates, its interval,
/// thresholds and output customisation. Without a service the mapping
/// updates a host-like object, with one a service-like object.
#[derive(Clone, Debug, PartialEq, Eq)]
pub struct Mapping {
    pub name: String,
    pub query: String,
    pub thresholds: ThresholdPair,
    pub host: String,
    pub service: Option<String>,
    /// Seconds between two runs.
    pub interval: u64,
    /// A template for the status text.
    pub plugin_output: Option<String>,
    pub performance_data: PerformanceData,
}

impl Mapping {
    /// The mapping updates a service-like object.
    pub open spec fn updates_service(&self) -> bool {
        self.service is Some
    }
}

/// One series of a query result: its labels and its value.
#[derive(Clone, Debug, PartialEq, Eq)]
pub struct TimeSeries {
    pub labels: LabelSet,
    pub value: Sample,
}

/// A series together with its check outcome. `real_exit_value` is what is
/// reported (0..=1 for host-like objects), `temp_exit_value` the full 0..=3
/// severity that the text describes; `exit_status` names the latter. The
/// flags are set for service-like objects (`is_ok`, `is_warning`,
/// `is_critical`) or for host-like ones (`is_up`, `is_down`), the other
/// group absent.
#[derive(Clone, Debug, PartialEq, Eq)]
pub struct Data {
    pub labels: LabelSet,
    pub value: Sample,
    pub is_ok: Option<bool>,
    pub is_warning: Option<bool>,
    pub is_critical: Option<bool>,
    pub is_up: Option<bool>,
    pub is_down: Option<bool>,
    pub exit_status: String,
    pub real_exit_value: u8,
    pub temp_exit_value: u8,
}

/// The flags of a data point or render context: the service group is
/// present exactly for service-like objects, the host group exactly for
/// host-like ones.
pub open spec fn flags_match(
    updates_service: bool,
    exit_value: u8,
    is_ok: Option<bool>,
    is_warning: Option<bool>,
    is_critical: Option<bool>,
    is_up: Option<bool>,
    is_down: Option<bool>,
) -> bool {
    if updates_service {
        &&& is_ok == Some(exit_value == 0)
        &&& is_warning == Some(exit_value == 1)
        &&& is_critical == Some(exit_value == 2)
        &&& is_up is None
        &&& is_down is None
    } else {
        &&& is_ok is None
        &&& is_warning is None
        &&& is_critical is None
        &&& is_up == Some(exit_value == 0)
        &&& is_down == Some(exit_value == 1)
    }
}

impl Data {
    /// The data point of a series with the given outcome.
    pub fn from(
        updates_service: bool,
        time_series: TimeSeries,
        real_exit_value: u8,
        temp_exit_value: u8,
        exit_status: String,
    ) -> (r: Data)
        ensures
            r.labels@ == time_series.labels@,
            r.labels.wf() == time_series.labels.wf(),
            r.value == time_series.value,
            r.real_exit_value == real_exit_value,
            r.temp_exit_value == temp_exit_value,
            r.exit_status@ == exit_status@,
            flags_match(
                updates_service,
                real_exit_value,
                r.is_ok,
                r.is_warning,
                r.is_critical,
                r.is_up,
                r.is_down,
            ),
    {
        Data {
            labels: time_series.labels,
            value: time_series.value,
            is_ok: if updates_service {
                Some(real_exit_value == 0)
            } else {
                None
            },
            is_warning: if updates_service {
                Some(real_exit_value == 1)
            } else {
                None
            },
            is_critical: if updates_service {
                Some(real_exit_value == 2)
            } else {
                None
            },
            is_up: if updates_service {
                None
            } else {
                Some(real_exit_value == 0)
            },
            is_down: if updates_service {
                None
            } else {
                Some(real_exit_value == 1)
            },
            real_exit_value,
            temp_exit_value,
            exit_status,
        }
    }
}

} // verus!
