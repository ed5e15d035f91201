//! Performance records: one `'label'=value[uom];warn;crit;;` string per data
//! point, their labels non-empty, single-line and unique within a check.

use crate::sample::Sample;
use crate::labels::default_label;
use crate::model::{Data, Mapping};
use crate::text::{chars_of, push_str, string_of};
use vstd::prelude::*;

verus! {

/// Why a set of performance labels was rejected.
#[derive(Clone, Copy, Debug, PartialEq, Eq, Structural)]
pub enum LabelError {
    /// A label is the empty string.
    Empty,
    /// A label spans more than one line.
    MultiLine,
    /// A label occurs twice.
    Duplicate,
}

/// `s` spans more than one line: a line feed that is not its last character.
pub open spec fn is_multi_line(s: Seq<char>) -> bool {
    exists|i: int| 0 <= i < s.len() - 1 && s[i] == '\n'
}

/// The error of adding `label` to the labels `seen` so far, if any.
pub open spec fn label_error(seen: Seq<Seq<char>>, label: Seq<char>) -> Option<LabelError> {
    if label.len() == 0 {
        Some(LabelError::Empty)
    } else if is_multi_line(label) {
        Some(LabelError::MultiLine)
    } else if seen.contains(label) {
        Some(LabelError::Duplicate)
    } else {
        None
    }
}

/// The first error met when the labels are added in order, if any.
pub open spec fn labels_error(labels: Seq<Seq<char>>) -> Option<LabelError>
    decreases labels.len(),
{
    if labels.len() == 0 {
        None
    } else {
        match labels_error(labels.drop_last()) {
            Some(e) => Some(e),
            None => label_error(labels.drop_last(), labels.last()),
        }
    }
}

/// The record of one value under `label`, with the unit and the threshold
/// ranges of the mapping (empty where unset).
pub open spec fn record_text(m: Mapping, label: Seq<char>, v: Sample) -> Seq<char> {
    "'"@ + label + "'="@ + v.plain_text() + (match m.performance_data.uom {
        Some(u) => u@,
        None => seq![],
    }) + ";"@ + (match m.thresholds.warning {
        Some(w) => w.text(),
        None => seq![],
    }) + ";"@ + (match m.thresholds.critical {
        Some(c) => c.text(),
        None => seq![],
    }) + ";;"@
}

/// The views of a sequence of strings.
pub open spec fn views(v: Seq<String>) -> Seq<Seq<char>> {
    v.map_values(|s: String| s@)
}

/// A label is non-empty, and single-line where the mapping name is.
pub open spec fn single_line_label(name: Seq<char>, label: Seq<char>) -> bool {
    &&& label.len() >= 1
    &&& !name.contains('\n') ==> !label.contains('\n')
}

/// A single label that is non-empty and holds no line feed passes.
pub proof fn lemma_single_label_passes(labels: Seq<Seq<char>>)
    requires
        labels.len() == 1,
        labels[0].len() >= 1,
        !labels[0].contains('\n'),
    ensures
        labels_error(labels) is None,
{
    assert(labels.drop_last() =~= Seq::<Seq<char>>::empty());
    assert(labels_error(Seq::<Seq<char>>::empty()) is None);
    if is_multi_line(labels[0]) {
        let i = choose|i: int| 0 <= i < labels[0].len() - 1 && labels[0][i] == '\n';
        assert(labels[0].contains('\n'));
    }
}

/// The default labels of the data points of a mapping.
pub open spec fn default_labels(m: Mapping, data: Seq<Data>) -> Seq<Seq<char>> {
    data.map_values(|d: Data| d.labels.default_label_text(m.name@))
}

/// Duplicate labels fail the whole set: when two labels are equal, no
/// records come out.
pub proof fn lemma_duplicate_labels_fail(labels: Seq<Seq<char>>, i: int, j: int)
    requires
        0 <= i < j < labels.len(),
        labels[i] == labels[j],
    ensures
        labels_error(labels) is Some,
    decreases labels.len(),
{
    if j < labels.len() - 1 {
        lemma_duplicate_labels_fail(labels.drop_last(), i, j);
    } else {
        if labels_error(labels.drop_last()) is None {
            assert(labels.drop_last()[i] == labels.last());
            assert(labels.drop_last().contains(labels.last()));
        }
    }
}

/// Once a prefix of the labels fails, the whole sequence fails with the
/// same error.
proof fn lemma_labels_error_extends(labels: Seq<Seq<char>>, k: int)
    requires
        0 <= k <= labels.len(),
        labels_error(labels.take(k)) is Some,
    ensures
        labels_error(labels) == labels_error(labels.take(k)),
    decreases labels.len() - k,
{
    if k < labels.len() {
        assert(labels.take(k + 1).drop_last() =~= labels.take(k));
        lemma_labels_error_extends(labels, k + 1);
    } else {
        assert(labels.take(k) =~= labels);
    }
}

/// Checks that a performance label is non-empty, single-line and not yet in
/// `labels`, and adds it there.
pub fn check_label(labels: &mut Vec<String>, label: &str) -> (r: Result<(), LabelError>)
    ensures
        match label_error(views(old(labels)@), label@) {
            Some(e) => r == Err::<(), LabelError>(e) && final(labels)@ == old(labels)@,
            None => r is Ok && views(final(labels)@) == views(old(labels)@).push(label@),
        },
{
    let cs = chars_of(label);
    if cs.len() == 0 {
        return Err(LabelError::Empty);
    }
    let mut i: usize = 0;
    while i < cs.len() - 1
        invariant
            cs@.len() > 0,
            cs@ == label@,
            i <= cs@.len(),
            forall|j: int| 0 <= j < i && j < cs@.len() - 1 ==> cs@[j] != '\n',
        decreases cs@.len() - i,
    {
        if cs[i] == '\n' {
            return Err(LabelError::MultiLine);
        }
        i = i + 1;
    }
    let mut k: usize = 0;
    while k < labels.len()
        invariant
            k <= labels@.len(),
            labels@ == old(labels)@,
            cs@ == label@,
            !is_multi_line(label@),
            label@.len() > 0,
            forall|j: int| 0 <= j < k ==> labels@[j]@ != label@,
        decreases labels@.len() - k,
    {
        let seen = chars_of(labels[k].as_str());
        if chars_equal(&seen, &cs) {
            proof {
                assert(views(labels@)[k as int] == label@);
            }
            return Err(LabelError::Duplicate);
        }
        k = k + 1;
    }
    proof {
        if views(labels@).contains(label@) {
            let j = choose|j: int| 0 <= j < views(labels@).len() && views(labels@)[j] == label@;
            assert(labels@[j]@ == label@);
        }
    }
    labels.push(string_of(&cs));
    assert(views(labels@) =~= views(old(labels)@).push(label@));
    Ok(())
}

/// Character sequences are equal.
fn chars_equal(a: &Vec<char>, b: &Vec<char>) -> (r: bool)
    ensures
        r == (a@ == b@),
{
    if a.len() != b.len() {
        return false;
    }
    let mut i: usize = 0;
    while i < a.len()
        invariant
            i <= a@.len() == b@.len(),
            forall|j: int| 0 <= j < i ==> a@[j] == b@[j],
        decreases a@.len() - i,
    {
        if a[i] != b[i] {
            return false;
        }
        i = i + 1;
    }
    assert(a@ =~= b@);
    true
}

/// The record of one value.
pub fn insert_performance_data(result: &mut Vec<String>, mapping: &Mapping, label: &str, value: &Sample)
    ensures
        final(result)@.len() == old(result)@.len() + 1,
        final(result)@.take(old(result)@.len() as int) == old(result)@,
        final(result)@.last()@ == record_text(*mapping, label@, *value),
{
    let mut out = chars_of("'");
    push_str(&mut out, label);
    push_str(&mut out, "'=");
    value.push_plain(&mut out);
    match &mapping.performance_data.uom {
        Some(u) => push_str(&mut out, u.as_str()),
        None => {},
    }
    push_str(&mut out, ";");
    match &mapping.thresholds.warning {
        Some(w) => w.push_text(&mut out),
        None => {},
    }
    push_str(&mut out, ";");
    match &mapping.thresholds.critical {
        Some(c) => c.push_text(&mut out),
        None => {},
    }
    push_str(&mut out, ";;");
    assert(out@ =~= record_text(*mapping, label@, *value));
    let ghost before = result@;
    result.push(string_of(&out));
    assert(result@.take(before.len() as int) =~= before);
}

/// The records of the data points under the given labels, one per point in
/// order; the first label that is empty, multi-line or repeated fails the
/// whole set.
pub fn performance_records(mapping: &Mapping, data: &[Data], labels: &[String]) -> (r: Result<
    Vec<String>,
    LabelError,
>)
    requires
        labels@.len() == data@.len(),
    ensures
        match labels_error(views(labels@)) {
            Some(e) => r == Err::<Vec<String>, LabelError>(e),
            None => r matches Ok(v) && v@.len() == data@.len() && forall|i: int|
                0 <= i < v@.len() ==> (#[trigger] v@[i])@ == record_text(
                    *mapping,
                    labels@[i]@,
                    data@[i].value,
                ),
        },
{
    let mut seen: Vec<String> = Vec::new();
    let mut result: Vec<String> = Vec::new();
    let mut i: usize = 0;
    while i < data.len()
        invariant
            i <= data@.len() == labels@.len(),
            views(seen@) == views(labels@).take(i as int),
            labels_error(views(labels@).take(i as int)) is None,
            result@.len() == i,
            forall|j: int| 0 <= j < i ==> (#[trigger] result@[j])@ == record_text(
                *mapping,
                labels@[j]@,
                data@[j].value,
            ),
        decreases data@.len() - i,
    {
        let ghost prefix = views(labels@).take(i as int);
        assert(views(labels@).take(i + 1).drop_last() =~= prefix);
        assert(views(labels@).take(i + 1).last() == labels@[i as int]@);
        match check_label(&mut seen, labels[i].as_str()) {
            Err(e) => {
                proof {
                    lemma_labels_error_extends(views(labels@), i + 1);
                }
                return Err(e);
            },
            Ok(()) => {},
        }
        assert(views(seen@) =~= views(labels@).take(i + 1));
        insert_performance_data(&mut result, mapping, labels[i].as_str(), &data[i].value);
        proof {
            assert forall|j: int| 0 <= j < i + 1 implies (#[trigger] result@[j])@ == record_text(
                *mapping,
                labels@[j]@,
                data@[j].value,
            ) by {
                if j < i {
                    assert(result@.take(i as int)[j] == result@[j]);
                }
            }
        }
        i = i + 1;
    }
    assert(views(labels@).take(i as int) =~= views(labels@));
    Ok(result)
}

/// The default labels of the data points: the mapping name and a short
/// digest of each label set.
pub fn default_performance_labels(mapping: &Mapping, data: &[Data]) -> (r: Vec<String>)
    ensures
        views(r@) == default_labels(*mapping, data@),
        r@.len() == data@.len(),
        forall|i: int| 0 <= i < r@.len() ==> single_line_label(mapping.name@, #[trigger] r@[i]@),
{
    let mut out: Vec<String> = Vec::new();
    let mut i: usize = 0;
    while i < data.len()
        invariant
            i <= data@.len(),
            views(out@) == default_labels(*mapping, data@).take(i as int),
            out@.len() == i,
            forall|j: int| 0 <= j < out@.len() ==> single_line_label(mapping.name@, #[trigger] out@[j]@),
        decreases data@.len() - i,
    {
        let l = default_label(mapping.name.as_str(), &data[i].labels);
        assert(l@ == default_labels(*mapping, data@)[i as int]);
        let ghost before = out@;
        out.push(l);
        assert(out@ == before.push(l));
        assert(views(out@).last() == l@);
        assert(views(out@).drop_last() =~= views(before));
        assert(views(out@) =~= default_labels(*mapping, data@).take(i + 1));
        i = i + 1;
    }
    assert(default_labels(*mapping, data@).take(i as int) =~= default_labels(*mapping, data@));
    assert(views(out@).len() == out@.len());
    out
}

/// The records of the data points under their default labels.
pub fn format_performance_data(mapping: &Mapping, data: &[Data]) -> (r: Result<
    Vec<String>,
    LabelError,
>)
    ensures
        match labels_error(default_labels(*mapping, data@)) {
            Some(e) => r == Err::<Vec<String>, LabelError>(e),
            None => r matches Ok(v) && v@.len() == data@.len() && forall|i: int|
                0 <= i < v@.len() ==> (#[trigger] v@[i])@ == record_text(
                    *mapping,
                    default_labels(*mapping, data@)[i],
                    data@[i].value,
                ),
        },
        !mapping.name@.contains('\n') && data@.len() == 1 ==> r is Ok,
{
    let labels = default_performance_labels(mapping, data);
    proof {
        if !mapping.name@.contains('\n') && data@.len() == 1 {
            assert(views(labels@)[0] == labels@[0]@);
            lemma_single_label_passes(views(labels@));
        }
    }
    let r = performance_records(mapping, data, &labels);
    proof {
        assert(views(labels@) == default_labels(*mapping, data@));
        assert forall|i: int| 0 <= i < labels@.len() implies labels@[i]@ == default_labels(
            *mapping,
            data@,
        )[i] by {
            assert(views(labels@)[i] == labels@[i]@);
        }
    }
    r
}

} // verus!
