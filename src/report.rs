//! The passive check report submitted for a mapping.

use crate::model::Mapping;
use crate::text::{chars_of, string_of};
use vstd::prelude::*;

verus! {

/// The report body: object type, severity, status text, optional
/// performance records, the filter selecting the object and its variables,
/// the validity period and the bounds of the evaluation (unix seconds).
#[derive(Clone, Debug, PartialEq, Eq)]
pub struct IcingaPayload {
    pub obj_type: String,
    pub exit_status: u8,
    pub plugin_output: String,
    pub performance_data: Option<Vec<String>>,
    pub filter: String,
    pub filter_vars: Vec<(String, String)>,
    pub ttl: u64,
    pub execution_start: u64,
    pub execution_end: u64,
}

/// Seconds a report stays valid beyond the interval of its mapping, so
/// that the object does not fall back to its default before the next one.
pub const TTL_GRACE_SECS: u64 = 10;

/// The views of filter variables.
pub open spec fn vars_view(v: Seq<(String, String)>) -> Seq<(Seq<char>, Seq<char>)> {
    v.map_values(|p: (String, String)| (p.0@, p.1@))
}

/// Builds the report of a mapping from the outcome of its evaluation.
pub fn build_payload(
    mapping: &Mapping,
    exit_status: u8,
    plugin_output: String,
    performance_data: Option<Vec<String>>,
    execution_start: u64,
    execution_end: u64,
) -> (r: IcingaPayload)
    requires
        mapping.interval <= u64::MAX - TTL_GRACE_SECS,
    ensures
        r.ttl == mapping.interval + TTL_GRACE_SECS,
        r.exit_status == exit_status,
        r.plugin_output == plugin_output,
        r.performance_data == performance_data,
        r.execution_start == execution_start,
        r.execution_end == execution_end,
        match mapping.service {
            Some(s) => {
                &&& r.obj_type@ == "Service"@
                &&& r.filter@ == "host.name==hostname && service.name==servicename"@
                &&& vars_view(r.filter_vars@) == seq![
                    ("hostname"@, mapping.host@),
                    ("servicename"@, s@),
                ]
            },
            None => {
                &&& r.obj_type@ == "Host"@
                &&& r.filter@ == "host.name==hostname"@
                &&& vars_view(r.filter_vars@) == seq![("hostname"@, mapping.host@)]
            },
        },
{
    let ttl = mapping.interval + TTL_GRACE_SECS;
    let mut filter_vars: Vec<(String, String)> = Vec::new();
    filter_vars.push((string_of(&chars_of("hostname")), string_of(&chars_of(mapping.host.as_str()))));
    let (obj_type, filter) = match &mapping.service {
        Some(service) => {
            filter_vars.push(
                (string_of(&chars_of("servicename")), string_of(&chars_of(service.as_str()))),
            );
            (
                string_of(&chars_of("Service")),
                string_of(&chars_of("host.name==hostname && service.name==servicename")),
            )
        },
        None => (string_of(&chars_of("Host")), string_of(&chars_of("host.name==hostname"))),
    };
    let r = IcingaPayload {
        obj_type,
        exit_status,
        plugin_output,
        performance_data,
        filter,
        filter_vars,
        ttl,
        execution_start,
        execution_end,
    };
    proof {
        if mapping.service is Some {
            assert(vars_view(r.filter_vars@) =~= seq![("hostname"@, mapping.host@), ("servicename"@, mapping.service->0@)]);
        } else {
            assert(vars_view(r.filter_vars@) =~= seq![("hostname"@, mapping.host@)]);
        }
    }
    r
}

} // verus!
