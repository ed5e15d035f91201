//! Severities: one per data point from the thresholds, and their
//! aggregation over a query result.

use crate::sample::Sample;
use crate::model::{flags_match, Data, Mapping, ThresholdPair, TimeSeries};
use crate::text::{chars_of, string_of};
use vstd::prelude::*;

verus! {

/// The full severity of a value: 2 when the critical range fires, else 1
/// when the warning range fires, else 0.
pub open spec fn display_severity(t: ThresholdPair, v: Sample) -> u8 {
    if t.critical matches Some(c) && c.fires(v) {
        2
    } else if t.warning matches Some(w) && w.fires(v) {
        1
    } else {
        0
    }
}

/// The severity that is reported: unchanged for service-like objects;
/// for host-like ones critical becomes 1 ("down") and anything else 0.
pub open spec fn real_severity(updates_service: bool, display: u8) -> u8 {
    if updates_service {
        display
    } else if display >= 2 {
        1
    } else {
        0
    }
}

/// The state word of a severity: `OK`, `WARNING`, `CRITICAL`, `UNKNOWN` for
/// service-like objects, `UP`, `UP`, `DOWN`, `DOWN` for host-like ones.
pub open spec fn state_word(updates_service: bool, severity: u8) -> Seq<char> {
    if severity == 3 {
        if updates_service {
            "UNKNOWN"@
        } else {
            "DOWN"@
        }
    } else if severity == 2 {
        if updates_service {
            "CRITICAL"@
        } else {
            "DOWN"@
        }
    } else if severity == 1 {
        if updates_service {
            "WARNING"@
        } else {
            "UP"@
        }
    } else {
        if updates_service {
            "OK"@
        } else {
            "UP"@
        }
    }
}

/// The largest element of a non-empty sequence.
pub open spec fn seq_max(s: Seq<u8>) -> u8
    decreases s.len(),
{
    if s.len() <= 1 {
        s[0]
    } else {
        let m = seq_max(s.drop_last());
        if s.last() > m {
            s.last()
        } else {
            m
        }
    }
}

/// The reported severities of the data points.
pub open spec fn real_values(data: Seq<Data>) -> Seq<u8> {
    data.map_values(|d: Data| d.real_exit_value)
}

/// The full severities of the data points.
pub open spec fn temp_values(data: Seq<Data>) -> Seq<u8> {
    data.map_values(|d: Data| d.temp_exit_value)
}

/// The data point that evaluating `ts` under `m` gives.
pub open spec fn evaluated(m: Mapping, ts: TimeSeries, d: Data) -> bool {
    let temp = display_severity(m.thresholds, ts.value);
    let reported = real_severity(m.service is Some, temp);
    &&& d.labels@ == ts.labels@
    &&& d.labels.wf() == ts.labels.wf()
    &&& d.value == ts.value
    &&& d.temp_exit_value == temp
    &&& d.real_exit_value == reported
    &&& d.exit_status@ == state_word(m.service is Some, temp)
    &&& flags_match(m.service is Some, reported, d.is_ok, d.is_warning, d.is_critical, d.is_up, d.is_down)
}

/// The largest element bounds all and is one of them.
pub proof fn lemma_seq_max(s: Seq<u8>)
    requires
        s.len() >= 1,
    ensures
        forall|i: int| 0 <= i < s.len() ==> s[i] <= seq_max(s),
        s.contains(seq_max(s)),
    decreases s.len(),
{
    if s.len() > 1 {
        lemma_seq_max(s.drop_last());
        let m = seq_max(s.drop_last());
        assert forall|i: int| 0 <= i < s.len() implies s[i] <= seq_max(s) by {
            if i < s.len() - 1 {
                assert(s.drop_last()[i] == s[i]);
            }
        }
        if s.last() > m {
            assert(s[s.len() - 1] == seq_max(s));
        } else {
            let j = choose|j: int| 0 <= j < s.drop_last().len() && s.drop_last()[j] == m;
            assert(s[j] == seq_max(s));
        }
    } else {
        assert(s[0] == seq_max(s));
    }
}

/// Aggregation does not depend on the order of the data points: sequences
/// holding the same severities, in any order, have the same maximum.
pub proof fn lemma_seq_max_order_independent(s: Seq<u8>, t: Seq<u8>)
    requires
        s.len() >= 1,
        s.to_multiset() == t.to_multiset(),
    ensures
        t.len() >= 1,
        seq_max(s) == seq_max(t),
{
    broadcast use vstd::seq_lib::group_to_multiset_ensures;

    s.to_multiset_ensures();
    t.to_multiset_ensures();
    lemma_seq_max(s);
    assert(s.to_multiset().count(seq_max(s)) > 0);
    assert(t.to_multiset().count(seq_max(s)) > 0);
    assert(t.contains(seq_max(s)));
    assert(t.len() >= 1);
    lemma_seq_max(t);
    assert(t.to_multiset().count(seq_max(t)) > 0);
    assert(s.contains(seq_max(t)));
    let i = choose|i: int| 0 <= i < t.len() && t[i] == seq_max(s);
    let j = choose|j: int| 0 <= j < s.len() && s[j] == seq_max(t);
    assert(s[j] <= seq_max(s));
    assert(t[i] <= seq_max(t));
}

/// Critical takes precedence: a value in both the warning and the critical
/// range has severity 2, and so has every aggregate over data points among
/// which one such value is found.
pub proof fn lemma_critical_precedence(m: Mapping, series: Seq<TimeSeries>, data: Seq<Data>, k: int)
    requires
        data.len() == series.len(),
        forall|i: int| 0 <= i < data.len() ==> evaluated(m, #[trigger] series[i], data[i]),
        0 <= k < series.len(),
        m.thresholds.warning matches Some(w) && w.fires(series[k].value),
        m.thresholds.critical matches Some(c) && c.fires(series[k].value),
    ensures
        data[k].temp_exit_value == 2,
        seq_max(temp_values(data)) == 2,
        seq_max(real_values(data)) == real_severity(m.service is Some, 2),
{
    assert(evaluated(m, series[k], data[k]));
    let temps = temp_values(data);
    let reals = real_values(data);
    lemma_seq_max(temps);
    lemma_seq_max(reals);
    assert(temps[k] == 2);
    assert forall|i: int| 0 <= i < temps.len() implies temps[i] <= 2 by {
        assert(evaluated(m, series[i], data[i]));
    }
    let top = real_severity(m.service is Some, 2);
    assert(reals[k] == top);
    assert forall|i: int| 0 <= i < reals.len() implies reals[i] <= top by {
        assert(evaluated(m, series[i], data[i]));
    }
}

/// The state word of a severity, which differs between host-like and
/// service-like objects.
pub fn exit_status_to_state(service: Option<&String>, exit_status: &u8) -> (r: String)
    requires
        *exit_status <= 3,
    ensures
        r@ == state_word(service is Some, *exit_status),
{
    let updates_service = service.is_some();
    let word = if *exit_status == 3 {
        if updates_service {
            "UNKNOWN"
        } else {
            "DOWN"
        }
    } else if *exit_status == 2 {
        if updates_service {
            "CRITICAL"
        } else {
            "DOWN"
        }
    } else if *exit_status == 1 {
        if updates_service {
            "WARNING"
        } else {
            "UP"
        }
    } else if updates_service {
        "OK"
    } else {
        "UP"
    };
    let cs = chars_of(word);
    string_of(&cs)
}

/// The severities of a value: `(real, display)`. Critical is checked first
/// and takes precedence over warning.
pub fn check_thresholds(mapping: &Mapping, value: &Sample) -> (r: (u8, u8))
    ensures
        r.1 == display_severity(mapping.thresholds, *value),
        r.0 == real_severity(mapping.service is Some, r.1),
{
    let mut display: u8 = 0;
    if let Some(critical) = &mapping.thresholds.critical {
        if critical.evaluate(value) {
            display = 2;
        }
    }
    if display == 0 {
        if let Some(warning) = &mapping.thresholds.warning {
            if warning.evaluate(value) {
                display = 1;
            }
        }
    }
    let reported = if mapping.service.is_some() {
        display
    } else if display >= 2 {
        1
    } else {
        0
    };
    (reported, display)
}

/// Evaluates each series: its severities, state word and flags.
pub fn process_time_series(mapping: &Mapping, time_series: Vec<TimeSeries>) -> (r: Vec<Data>)
    ensures
        r@.len() == time_series@.len(),
        forall|i: int| 0 <= i < r@.len() ==> evaluated(*mapping, #[trigger] time_series@[i], r@[i]),
{
    let ghost all = time_series@;
    let mut rest = time_series;
    let mut out: Vec<Data> = Vec::new();
    while rest.len() > 0
        invariant
            out@.len() + rest@.len() == all.len(),
            rest@ == all.subrange(out@.len() as int, all.len() as int),
            forall|i: int| 0 <= i < out@.len() ==> evaluated(*mapping, #[trigger] all[i], out@[i]),
        decreases rest@.len(),
    {
        let ghost k = out@.len();
        let ts = rest.remove(0);
        assert(ts == all[k as int]);
        let (reported, temp) = check_thresholds(mapping, &ts.value);
        let status = exit_status_to_state(mapping.service.as_ref(), &temp);
        let d = Data::from(mapping.service.is_some(), ts, reported, temp, status);
        out.push(d);
        assert(rest@ =~= all.subrange(out@.len() as int, all.len() as int));
    }
    out
}

/// The aggregate severities `(real, display)`: the largest over all data
/// points.
pub fn overall_exit_values(data: &Vec<Data>) -> (r: (u8, u8))
    requires
        data@.len() >= 1,
    ensures
        r.0 == seq_max(real_values(data@)),
        r.1 == seq_max(temp_values(data@)),
{
    let mut top_real: u8 = data[0].real_exit_value;
    let mut temp: u8 = data[0].temp_exit_value;
    let mut i: usize = 1;
    proof {
        assert(real_values(data@).take(1) =~= seq![top_real]);
        assert(temp_values(data@).take(1) =~= seq![temp]);
    }
    while i < data.len()
        invariant
            1 <= i <= data@.len(),
            top_real == seq_max(real_values(data@).take(i as int)),
            temp == seq_max(temp_values(data@).take(i as int)),
        decreases data@.len() - i,
    {
        proof {
            assert(real_values(data@).take(i + 1).drop_last() =~= real_values(data@).take(i as int));
            assert(temp_values(data@).take(i + 1).drop_last() =~= temp_values(data@).take(i as int));
        }
        if data[i].real_exit_value > top_real {
            top_real = data[i].real_exit_value;
        }
        if data[i].temp_exit_value > temp {
            temp = data[i].temp_exit_value;
        }
        i = i + 1;
    }
    proof {
        assert(real_values(data@).take(i as int) =~= real_values(data@));
        assert(temp_values(data@).take(i as int) =~= temp_values(data@));
    }
    (top_real, temp)
}

} // verus!
