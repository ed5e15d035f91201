//! The default status texts of a check.

use crate::sample::Sample;
use crate::model::Mapping;
use crate::severity::{exit_status_to_state, state_word};
use crate::text::{chars_of, push_str, string_of};
use vstd::prelude::*;

verus! {

/// The least element of a non-empty sequence of samples, passing over
/// not-a-number unless all are.
pub open spec fn min_of(s: Seq<Sample>) -> Sample
    decreases s.len(),
{
    if s.len() <= 1 {
        s[0]
    } else {
        let m = min_of(s.drop_last());
        if m is NaN || s.last().spec_lt(m) {
            s.last()
        } else {
            m
        }
    }
}

/// The greatest element of a non-empty sequence of samples, passing over
/// not-a-number unless all are.
pub open spec fn max_of(s: Seq<Sample>) -> Sample
    decreases s.len(),
{
    if s.len() <= 1 {
        s[0]
    } else {
        let m = max_of(s.drop_last());
        if m is NaN || m.spec_lt(s.last()) {
            s.last()
        } else {
            m
        }
    }
}

/// The text of an empty query result: `UNKNOWN` for service-like objects,
/// `DOWN` for host-like ones.
pub open spec fn empty_result_text(updates_service: bool) -> Seq<char> {
    "["@ + (if updates_service {
        "UNKNOWN"@
    } else {
        "DOWN"@
    }) + "] PromQL query result set is empty"@
}

/// The severity of the text is explained by a configured range.
pub open spec fn severity_has_range(m: Mapping, severity: u8) -> bool {
    &&& severity <= 2
    &&& severity == 2 ==> m.thresholds.critical is Some
    &&& severity == 1 ==> m.thresholds.warning is Some
}

/// The text of a single result.
pub open spec fn single_item_text(m: Mapping, v: Sample, severity: u8) -> Seq<char> {
    let head = "["@ + state_word(m.service is Some, severity) + "] PromQL query returned one result"@;
    let value = v.truncated_text(2);
    if severity == 2 {
        head + " within the critical range ("@ + value + " in "@ + m.thresholds.critical->0.text()
            + ")"@
    } else if severity == 1 {
        head + " within the warning range ("@ + value + " in "@ + m.thresholds.warning->0.text()
            + ")"@
    } else {
        head + " ("@ + value + ")"@
    }
}

/// The text of several results, citing the span of their values.
pub open spec fn multiple_items_text(m: Mapping, values: Seq<Sample>, severity: u8) -> Seq<char> {
    let head = "["@ + state_word(m.service is Some, severity) + "] PromQL query returned multiple results"@;
    let span = min_of(values).fixed_text(2) + "..="@ + max_of(values).fixed_text(2);
    if severity == 2 {
        head + " within the critical range (values "@ + span + " overlap with "@
            + m.thresholds.critical->0.text() + ")"@
    } else if severity == 1 {
        head + " within the warning range (values "@ + span + " overlap with "@
            + m.thresholds.warning->0.text() + ")"@
    } else {
        head + " in the range "@ + span
    }
}

/// Returns the status text of an empty query result.
pub fn format_default_without_result(updates_service: bool) -> (r: String)
    ensures
        r@ == empty_result_text(updates_service),
{
    let mut out = chars_of("[");
    if updates_service {
        push_str(&mut out, "UNKNOWN");
    } else {
        push_str(&mut out, "DOWN");
    }
    push_str(&mut out, "] PromQL query result set is empty");
    string_of(&out)
}

/// Returns the status text of a single result.
pub fn format_default_single_item(mapping: &Mapping, value: &Sample, exit_status: u8) -> (r: String)
    requires
        severity_has_range(*mapping, exit_status),
    ensures
        r@ == single_item_text(*mapping, *value, exit_status),
{
    let state = exit_status_to_state(mapping.service.as_ref(), &exit_status);
    let mut out = chars_of("[");
    push_str(&mut out, state.as_str());
    push_str(&mut out, "] PromQL query returned one result");
    if exit_status == 2 {
        push_str(&mut out, " within the critical range (");
        value.push_truncated(&mut out, 2);
        push_str(&mut out, " in ");
        match &mapping.thresholds.critical {
            Some(c) => c.push_text(&mut out),
            None => {},
        }
        push_str(&mut out, ")");
    } else if exit_status == 1 {
        push_str(&mut out, " within the warning range (");
        value.push_truncated(&mut out, 2);
        push_str(&mut out, " in ");
        match &mapping.thresholds.warning {
            Some(w) => w.push_text(&mut out),
            None => {},
        }
        push_str(&mut out, ")");
    } else {
        push_str(&mut out, " (");
        value.push_truncated(&mut out, 2);
        push_str(&mut out, ")");
    }
    assert(out@ =~= single_item_text(*mapping, *value, exit_status));
    string_of(&out)
}

/// The least and the greatest of the values.
pub fn min_max(values: &[Sample]) -> (r: (Sample, Sample))
    requires
        values@.len() >= 1,
    ensures
        r.0 == min_of(values@),
        r.1 == max_of(values@),
{
    let mut lo = values[0];
    let mut hi = values[0];
    let mut i: usize = 1;
    assert(values@.take(1).len() == 1);
    while i < values.len()
        invariant
            1 <= i <= values@.len(),
            lo == min_of(values@.take(i as int)),
            hi == max_of(values@.take(i as int)),
        decreases values@.len() - i,
    {
        assert(values@.take(i + 1).drop_last() =~= values@.take(i as int));
        let v = values[i];
        if lo.is_nan() || v.lt(&lo) {
            lo = v;
        }
        if hi.is_nan() || hi.lt(&v) {
            hi = v;
        }
        i = i + 1;
    }
    assert(values@.take(i as int) =~= values@);
    (lo, hi)
}

/// Returns the status text of several results.
pub fn format_default_multiple_items(mapping: &Mapping, values: &[Sample], exit_status: u8) -> (r:
    String)
    requires
        values@.len() >= 1,
        severity_has_range(*mapping, exit_status),
    ensures
        r@ == multiple_items_text(*mapping, values@, exit_status),
{
    let (lo, hi) = min_max(values);
    let state = exit_status_to_state(mapping.service.as_ref(), &exit_status);
    let mut out = chars_of("[");
    push_str(&mut out, state.as_str());
    push_str(&mut out, "] PromQL query returned multiple results");
    if exit_status == 2 {
        push_str(&mut out, " within the critical range (values ");
        lo.push_fixed(&mut out, 2);
        push_str(&mut out, "..=");
        hi.push_fixed(&mut out, 2);
        push_str(&mut out, " overlap with ");
        match &mapping.thresholds.critical {
            Some(c) => c.push_text(&mut out),
            None => {},
        }
        push_str(&mut out, ")");
    } else if exit_status == 1 {
        push_str(&mut out, " within the warning range (values ");
        lo.push_fixed(&mut out, 2);
        push_str(&mut out, "..=");
        hi.push_fixed(&mut out, 2);
        push_str(&mut out, " overlap with ");
        match &mapping.thresholds.warning {
            Some(w) => w.push_text(&mut out),
            None => {},
        }
        push_str(&mut out, ")");
    } else {
        push_str(&mut out, " in the range ");
        lo.push_fixed(&mut out, 2);
        push_str(&mut out, "..=");
        hi.push_fixed(&mut out, 2);
    }
    assert(out@ =~= multiple_items_text(*mapping, values@, exit_status));
    string_of(&out)
}

} // verus!
