//! The read-only contexts that status-text and label templates are
//! rendered against.

use crate::labels::LabelSet;
use crate::model::{flags_match, Data, Mapping, ThresholdPair};
use vstd::prelude::*;

verus! {

/// What a label template sees: the mapping's identity and the labels of
/// one data point.
#[derive(Clone, Debug, PartialEq, Eq)]
pub struct PerformanceDataRenderContext {
    pub name: String,
    pub host: String,
    pub service: Option<String>,
    pub labels: LabelSet,
}

/// What a status-text template sees: the mapping, all data points, the
/// reported severity and the state word, and the flags of the reported
/// severity (the service group for service-like objects, the host group for
/// host-like ones, the other group absent).
#[derive(Clone, Debug, PartialEq, Eq)]
pub struct PluginOutputRenderContext {
    pub name: String,
    pub query: String,
    pub thresholds: ThresholdPair,
    pub host: String,
    pub service: Option<String>,
    pub interval: u64,
    pub data: Vec<Data>,
    pub exit_value: u8,
    pub exit_status: String,
    pub is_ok: Option<bool>,
    pub is_warning: Option<bool>,
    pub is_critical: Option<bool>,
    pub is_up: Option<bool>,
    pub is_down: Option<bool>,
}

/// A copy of an optional string.
fn copy_opt(s: &Option<String>) -> (r: Option<String>)
    ensures
        r == *s,
{
    match s {
        Some(v) => Some(v.clone()),
        None => None,
    }
}

impl PerformanceDataRenderContext {
    /// The context of one data point's labels.
    pub fn from(mapping: &Mapping, labels: LabelSet) -> (r: PerformanceDataRenderContext)
        ensures
            r.name == mapping.name,
            r.host == mapping.host,
            r.service == mapping.service,
            r.labels == labels,
    {
        PerformanceDataRenderContext {
            name: mapping.name.clone(),
            host: mapping.host.clone(),
            service: copy_opt(&mapping.service),
            labels,
        }
    }
}

impl PluginOutputRenderContext {
    /// The context of a whole check.
    pub fn from(mapping: &Mapping, data: Vec<Data>, exit_value: u8, exit_status: String) -> (r:
        PluginOutputRenderContext)
        ensures
            r.name == mapping.name,
            r.query == mapping.query,
            r.thresholds == mapping.thresholds,
            r.host == mapping.host,
            r.service == mapping.service,
            r.interval == mapping.interval,
            r.data == data,
            r.exit_value == exit_value,
            r.exit_status == exit_status,
            flags_match(
                mapping.service is Some,
                exit_value,
                r.is_ok,
                r.is_warning,
                r.is_critical,
                r.is_up,
                r.is_down,
            ),
    {
        let updates_service = mapping.service.is_some();
        PluginOutputRenderContext {
            name: mapping.name.clone(),
            query: mapping.query.clone(),
            thresholds: mapping.thresholds,
            host: mapping.host.clone(),
            service: copy_opt(&mapping.service),
            interval: mapping.interval,
            data,
            exit_value,
            exit_status,
            is_ok: if updates_service {
                Some(exit_value == 0)
            } else {
                None
            },
            is_warning: if updates_service {
                Some(exit_value == 1)
            } else {
                None
            },
            is_critical: if updates_service {
                Some(exit_value == 2)
            } else {
                None
            },
            is_up: if updates_service {
                None
            } else {
                Some(exit_value == 0)
            },
            is_down: if updates_service {
                None
            } else {
                Some(exit_value == 1)
            },
        }
    }
}

} // verus!
