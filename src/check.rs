//! The evaluation pipeline of one mapping: from the series of a query
//! result to the status text, the reported severity and the performance
//! records.

use crate::sample::Sample;
use crate::model::{Data, Mapping, TimeSeries};
use crate::output::{
    empty_result_text, format_default_multiple_items, format_default_single_item,
    format_default_without_result, multiple_items_text, severity_has_range, single_item_text,
};
use crate::perfdata::{
    default_labels, default_performance_labels, labels_error, lemma_single_label_passes, performance_records, record_text,
    views, LabelError,
};
use crate::severity::{
    display_severity, evaluated, exit_status_to_state, lemma_seq_max, overall_exit_values,
    process_time_series, real_severity, real_values, seq_max, state_word, temp_values,
};
use vstd::prelude::*;

verus! {

/// The data points of a non-empty query result and their aggregate
/// severities.
#[derive(Clone, Debug, PartialEq, Eq)]
pub struct Evaluation {
    pub data: Vec<Data>,
    /// The reported severity: the largest over the data points.
    pub exit_value: u8,
    /// The full severity: the largest over the data points.
    pub temp_exit_value: u8,
    /// The state word of the full severity.
    pub exit_status: String,
}

/// What a check reports: the status text, the severity and, when enabled,
/// the performance records.
#[derive(Clone, Debug, PartialEq, Eq)]
pub struct CheckResult {
    pub plugin_output: String,
    pub exit_value: u8,
    pub performance_data: Option<Vec<String>>,
}

/// The values of the data points.
pub open spec fn values_of(data: Seq<Data>) -> Seq<Sample> {
    data.map_values(|d: Data| d.value)
}

/// The default status text of non-empty values under a full severity.
pub open spec fn default_text(m: Mapping, values: Seq<Sample>, severity: u8) -> Seq<char> {
    if values.len() == 1 {
        single_item_text(m, values[0], severity)
    } else {
        multiple_items_text(m, values, severity)
    }
}

/// The records of the values under the given labels.
pub open spec fn records_match(
    m: Mapping,
    values: Seq<Sample>,
    labels: Seq<Seq<char>>,
    v: Seq<String>,
) -> bool {
    &&& v.len() == values.len()
    &&& forall|i: int| 0 <= i < v.len() ==> (#[trigger] v[i])@ == record_text(m, labels[i], values[i])
}

/// The outcome of completing a check over `values` with aggregate
/// severities `reported` and `temp`, status text `text` when one is given and
/// performance labels `labels`.
pub open spec fn check_outcome(
    m: Mapping,
    values: Seq<Sample>,
    reported: u8,
    temp: u8,
    text: Option<Seq<char>>,
    labels: Seq<Seq<char>>,
    r: Result<CheckResult, LabelError>,
) -> bool {
    if m.performance_data.enabled && labels_error(labels) is Some {
        r == Err::<CheckResult, LabelError>(labels_error(labels)->0)
    } else {
        &&& r matches Ok(c)
        &&& c.plugin_output@ == (match text {
            Some(t) => t,
            None => default_text(m, values, temp),
        })
        &&& c.exit_value == reported
        &&& (m.performance_data.enabled <==> c.performance_data is Some)
        &&& (c.performance_data matches Some(v) ==> records_match(m, values, labels, v@))
    }
}

/// The full severities of the series under a mapping.
pub open spec fn series_temps(m: Mapping, ts: Seq<TimeSeries>) -> Seq<u8> {
    ts.map_values(|t: TimeSeries| display_severity(m.thresholds, t.value))
}

/// The reported severities of the series under a mapping.
pub open spec fn series_reals(m: Mapping, ts: Seq<TimeSeries>) -> Seq<u8> {
    ts.map_values(
        |t: TimeSeries| real_severity(m.service is Some, display_severity(m.thresholds, t.value)),
    )
}

/// The values of the series.
pub open spec fn series_values(ts: Seq<TimeSeries>) -> Seq<Sample> {
    ts.map_values(|t: TimeSeries| t.value)
}

/// The default performance labels of the series under a mapping.
pub open spec fn series_labels(m: Mapping, ts: Seq<TimeSeries>) -> Seq<Seq<char>> {
    ts.map_values(|t: TimeSeries| t.labels.default_label_text(m.name@))
}

impl Evaluation {
    /// The evaluation belongs to the mapping: each point carries the
    /// severities of its value and the aggregates are their maxima.
    pub open spec fn wf(&self, m: Mapping) -> bool {
        &&& self.data@.len() >= 1
        &&& forall|i: int|
            0 <= i < self.data@.len() ==> {
                let d = #[trigger] self.data@[i];
                &&& d.temp_exit_value == display_severity(m.thresholds, d.value)
                &&& d.real_exit_value == real_severity(m.service is Some, d.temp_exit_value)
            }
        &&& self.exit_value == seq_max(real_values(self.data@))
        &&& self.temp_exit_value == seq_max(temp_values(self.data@))
        &&& self.exit_status@ == state_word(m.service is Some, self.temp_exit_value)
    }
}

/// Evaluates a non-empty query result: the data points and their aggregate
/// severities.
pub fn evaluate_time_series(mapping: &Mapping, time_series: Vec<TimeSeries>) -> (r: Evaluation)
    requires
        time_series@.len() >= 1,
    ensures
        r.wf(*mapping),
        r.data@.len() == time_series@.len(),
        forall|i: int|
            0 <= i < r.data@.len() ==> evaluated(*mapping, #[trigger] time_series@[i], r.data@[i]),
{
    let data = process_time_series(mapping, time_series);
    let (exit_value, temp_exit_value) = overall_exit_values(&data);
    proof {
        lemma_seq_max(temp_values(data@));
        assert forall|i: int| 0 <= i < data@.len() implies {
            let d = #[trigger] data@[i];
            &&& d.temp_exit_value == display_severity(mapping.thresholds, d.value)
            &&& d.real_exit_value == real_severity(mapping.service is Some, d.temp_exit_value)
        } by {
            assert(evaluated(*mapping, time_series@[i], data@[i]));
        }
        let j = choose|j: int| 0 <= j < temp_values(data@).len() && temp_values(data@)[j] == temp_exit_value;
        assert(data@[j].temp_exit_value == temp_exit_value);
    }
    let exit_status = exit_status_to_state(mapping.service.as_ref(), &temp_exit_value);
    Evaluation { data, exit_value, temp_exit_value, exit_status }
}

/// Critical takes precedence in the outcome of a check: when the critical
/// range fires for some series, whatever the warning range does, the full
/// aggregate is 2, the reported one is that of a critical state, and the
/// default text starts with `[`, the critical state word and `]`, and ends
/// citing the critical range.
pub proof fn lemma_critical_precedence_outcome(m: Mapping, ts: Seq<TimeSeries>, k: int)
    requires
        0 <= k < ts.len(),
        m.thresholds.critical matches Some(c) && c.fires(ts[k].value),
    ensures
        seq_max(series_temps(m, ts)) == 2,
        seq_max(series_reals(m, ts)) == (if m.service is Some {
            2u8
        } else {
            1u8
        }),
        default_text(m, series_values(ts), 2).take(
            ("["@ + state_word(m.service is Some, 2)).len() as int,
        ) == "["@ + state_word(m.service is Some, 2),
        default_text(m, series_values(ts), 2)[("["@ + state_word(m.service is Some, 2)).len() as int]
            == ']',
        state_word(m.service is Some, 2) == (if m.service is Some {
            "CRITICAL"@
        } else {
            "DOWN"@
        }),
        default_text(m, series_values(ts), 2).skip(
            default_text(m, series_values(ts), 2).len() - (m.thresholds.critical->0.text() + ")"@).len(),
        ) == m.thresholds.critical->0.text() + ")"@,
{
    let temps = series_temps(m, ts);
    let reals = series_reals(m, ts);
    lemma_seq_max(temps);
    lemma_seq_max(reals);
    assert(temps[k] == 2);
    let top = real_severity(m.service is Some, 2);
    assert(reals[k] == top);
    assert forall|i: int| 0 <= i < temps.len() implies temps[i] <= 2 by {}
    assert forall|i: int| 0 <= i < reals.len() implies reals[i] <= top by {}
    let word = "["@ + state_word(m.service is Some, 2);
    let cite = m.thresholds.critical->0.text() + ")"@;
    let t = default_text(m, series_values(ts), 2);
    assert(t.take(word.len() as int) =~= word);
    assert(t.skip(t.len() - cite.len()) =~= cite);
    reveal_strlit("] PromQL query returned one result");
    reveal_strlit("] PromQL query returned multiple results");
    assert(t[word.len() as int] == ']');
}

/// The full aggregate severity is explained by a configured range.
proof fn lemma_aggregate_has_range(m: Mapping, e: Evaluation)
    requires
        e.wf(m),
    ensures
        severity_has_range(m, e.temp_exit_value),
{
    lemma_seq_max(temp_values(e.data@));
    let j = choose|j: int| 0 <= j < temp_values(e.data@).len() && temp_values(e.data@)[j] == e.temp_exit_value;
    assert(temp_values(e.data@)[j] == e.data@[j].temp_exit_value);
    assert(e.data@[j].temp_exit_value == display_severity(m.thresholds, e.data@[j].value));
}

/// Completes a check from its evaluation. The status text is `output` when
/// given (a rendered template) and the default text otherwise; when
/// performance records are enabled they use `perf_labels` when given
/// (rendered labels, one per data point) and the default labels otherwise,
/// and a label error fails the whole check.
pub fn finish_check(
    mapping: &Mapping,
    evaluation: Evaluation,
    output: Option<String>,
    perf_labels: Option<Vec<String>>,
) -> (r: Result<CheckResult, LabelError>)
    requires
        evaluation.wf(*mapping),
        perf_labels matches Some(ls) ==> ls@.len() == evaluation.data@.len(),
    ensures
        check_outcome(
            *mapping,
            values_of(evaluation.data@),
            evaluation.exit_value,
            evaluation.temp_exit_value,
            match output {
                Some(t) => Some(t@),
                None => None,
            },
            match perf_labels {
                Some(ls) => views(ls@),
                None => default_labels(*mapping, evaluation.data@),
            },
            r,
        ),
        perf_labels is None && !mapping.name@.contains('\n') && evaluation.data@.len() == 1
            ==> r is Ok,
{
    let ghost given = perf_labels is Some;
    let performance_data = if mapping.performance_data.enabled {
        let labels = match perf_labels {
            Some(ls) => ls,
            None => default_performance_labels(mapping, evaluation.data.as_slice()),
        };
        proof {
            if !given && !mapping.name@.contains('\n') && evaluation.data@.len() == 1 {
                assert(views(labels@)[0] == labels@[0]@);
                lemma_single_label_passes(views(labels@));
            }
        }
        match performance_records(mapping, evaluation.data.as_slice(), labels.as_slice()) {
            Ok(v) => Some(v),
            Err(e) => {
                return Err(e);
            },
        }
    } else {
        None
    };
    let plugin_output = match output {
        Some(t) => t,
        None => {
            proof {
                lemma_aggregate_has_range(*mapping, evaluation);
            }
            if evaluation.data.len() == 1 {
                format_default_single_item(mapping, &evaluation.data[0].value, evaluation.temp_exit_value)
            } else {
                let values = values_vec(&evaluation.data);
                format_default_multiple_items(mapping, values.as_slice(), evaluation.temp_exit_value)
            }
        },
    };
    Ok(CheckResult { plugin_output, exit_value: evaluation.exit_value, performance_data })
}

/// The values of the data points.
fn values_vec(data: &Vec<Data>) -> (r: Vec<Sample>)
    ensures
        r@ == values_of(data@),
{
    let mut out: Vec<Sample> = Vec::new();
    let mut i: usize = 0;
    while i < data.len()
        invariant
            i <= data@.len(),
            out@ == values_of(data@).take(i as int),
        decreases data@.len() - i,
    {
        out.push(data[i].value);
        i = i + 1;
        assert(out@ =~= values_of(data@).take(i as int));
    }
    assert(values_of(data@).take(i as int) =~= values_of(data@));
    out
}

/// The report of an empty query result: severity 3 (`UNKNOWN`) for
/// service-like objects and 1 (`DOWN`) for host-like ones, a fixed text and
/// no performance records.
pub fn empty_result(mapping: &Mapping) -> (r: CheckResult)
    ensures
        r.exit_value == (if mapping.service is Some {
            3u8
        } else {
            1u8
        }),
        r.plugin_output@ == empty_result_text(mapping.service is Some),
        r.performance_data is None,
{
    let updates_service = mapping.service.is_some();
    CheckResult {
        plugin_output: format_default_without_result(updates_service),
        exit_value: if updates_service {
            3
        } else {
            1
        },
        performance_data: None,
    }
}

/// Converts a non-empty query result into the status text, the reported
/// severity and the performance records, with the default text and labels.
pub fn process_query_result(mapping: &Mapping, time_series: Vec<TimeSeries>) -> (r: Result<
    CheckResult,
    LabelError,
>)
    requires
        time_series@.len() >= 1,
    ensures
        check_outcome(
            *mapping,
            series_values(time_series@),
            seq_max(series_reals(*mapping, time_series@)),
            seq_max(series_temps(*mapping, time_series@)),
            None,
            series_labels(*mapping, time_series@),
            r,
        ),
        !mapping.name@.contains('\n') && time_series@.len() == 1 ==> r is Ok,
{
    let ghost ts = time_series@;
    let evaluation = evaluate_time_series(mapping, time_series);
    proof {
        let data = evaluation.data@;
        assert forall|i: int| 0 <= i < data.len() implies data[i].value == ts[i].value
            && data[i].labels@ == ts[i].labels@ by {
            assert(evaluated(*mapping, ts[i], data[i]));
        }
        assert(values_of(data) =~= series_values(ts));
        assert(temp_values(data) =~= series_temps(*mapping, ts));
        assert(real_values(data) =~= series_reals(*mapping, ts));
        assert(default_labels(*mapping, data) =~= series_labels(*mapping, ts));
    }
    finish_check(mapping, evaluation, None, None)
}

/// The outcome of a query result of any size: the fixed report of an
/// empty one, else the check of its series with the default text and
/// labels.
pub fn check_query_result(mapping: &Mapping, time_series: Vec<TimeSeries>) -> (r: Result<
    CheckResult,
    LabelError,
>)
    ensures
        time_series@.len() == 0 ==> (r matches Ok(c) && c.exit_value == (if mapping.service is Some {
            3u8
        } else {
            1u8
        }) && c.plugin_output@ == empty_result_text(mapping.service is Some)
            && c.performance_data is None),
        time_series@.len() >= 1 ==> check_outcome(
            *mapping,
            series_values(time_series@),
            seq_max(series_reals(*mapping, time_series@)),
            seq_max(series_temps(*mapping, time_series@)),
            None,
            series_labels(*mapping, time_series@),
            r,
        ),
        !mapping.name@.contains('\n') && time_series@.len() == 1 ==> r is Ok,
{
    if time_series.len() == 0 {
        Ok(empty_result(mapping))
    } else {
        process_query_result(mapping, time_series)
    }
}

} // verus!
