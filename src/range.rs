//! Range thresholds: an alarm zone `[start, end]` with inside/outside
//! polarity, read from the compact `@start:end` syntax.

use crate::decimal::Decimal;
use crate::sample::Sample;
use crate::parse::{is_number_text, number_decimal, number_fits};
use crate::text::{chars_of, push_range, string_of};
use vstd::prelude::*;

verus! {

/// A range with inclusive bounds; `None` is `-inf` as start and `+inf` as end.
#[derive(Clone, Copy, Debug, PartialEq, Eq, Structural)]
pub struct RangeThreshold {
    /// The alarm fires inside the range (`@` prefix) rather than outside.
    pub alert_inside: bool,
    pub start: Option<Decimal>,
    pub end: Option<Decimal>,
}

/// Why a range text was rejected.
#[derive(Clone, Copy, Debug, PartialEq, Eq, Structural)]
pub enum RangeError {
    /// The text is empty.
    Empty,
    /// The token before the colon is no number.
    InvalidStart,
    /// The token after the colon, or the single number, is no number.
    InvalidEnd,
    /// Both bounds are finite and the start exceeds the end.
    StartGreaterThanEnd,
}

pub open spec fn tilde() -> Seq<char> {
    seq!['~']
}

/// A number token that a `Decimal` holds.
pub open spec fn number_ok(t: Seq<char>) -> bool {
    is_number_text(t) && number_fits(t)
}

/// The body of a range text, after an optional `@`.
pub open spec fn range_body(s: Seq<char>) -> Seq<char> {
    if s.len() > 0 && s[0] == '@' {
        s.skip(1)
    } else {
        s
    }
}

/// The position of the first colon of `s`, if any.
pub open spec fn first_colon(s: Seq<char>) -> Option<int> {
    if exists|i: int| 0 <= i < s.len() && s[i] == ':' {
        Some(choose|i: int| 0 <= i < s.len() && s[i] == ':' && forall|j: int| 0 <= j < i ==> s[j] != ':')
    } else {
        None
    }
}

/// The start bound a left token stands for: `~` is unbounded, an empty
/// token is zero.
pub open spec fn start_of(t: Seq<char>) -> Option<Decimal> {
    if t == tilde() {
        None
    } else if t.len() == 0 {
        Some(Decimal { mantissa: 0, exponent: 0 })
    } else {
        Some(number_decimal(t))
    }
}

/// The end bound a right token stands for: `~` and the empty token are
/// unbounded.
pub open spec fn end_of(t: Seq<char>) -> Option<Decimal> {
    if t == tilde() || t.len() == 0 {
        None
    } else {
        Some(number_decimal(t))
    }
}

/// The two bounds are in order (or one is infinite).
pub open spec fn bounds_ordered(start: Option<Decimal>, end: Option<Decimal>) -> bool {
    match (start, end) {
        (Some(a), Some(b)) => a.spec_le(b),
        _ => true,
    }
}

/// The bounds that a range body (the text after an optional `@`) gives.
pub open spec fn bounds_spec(body: Seq<char>) -> Result<(Option<Decimal>, Option<Decimal>), RangeError> {
    match first_colon(body) {
        Some(c) => colon_bounds_spec(body.take(c), body.skip(c + 1)),
        None => single_bound_spec(body),
    }
}

/// The bounds of `left:right`.
pub open spec fn colon_bounds_spec(left: Seq<char>, right: Seq<char>) -> Result<(Option<Decimal>, Option<Decimal>), RangeError> {
    if !(left == tilde() || left.len() == 0 || number_ok(left)) {
        Err(RangeError::InvalidStart)
    } else if !(right == tilde() || right.len() == 0 || number_ok(right)) {
        Err(RangeError::InvalidEnd)
    } else if !bounds_ordered(start_of(left), end_of(right)) {
        Err(RangeError::StartGreaterThanEnd)
    } else {
        Ok((start_of(left), end_of(right)))
    }
}

/// The bounds of a single number `N`: `[0, N]`.
pub open spec fn single_bound_spec(body: Seq<char>) -> Result<(Option<Decimal>, Option<Decimal>), RangeError> {
    let zero = Decimal { mantissa: 0, exponent: 0 };
    if !number_ok(body) {
        Err(RangeError::InvalidEnd)
    } else if !zero.spec_le(number_decimal(body)) {
        Err(RangeError::StartGreaterThanEnd)
    } else {
        Ok((Some(zero), Some(number_decimal(body))))
    }
}

/// The outcome of reading a range text.
pub open spec fn parse_spec(s: Seq<char>) -> Result<RangeThreshold, RangeError> {
    if s.len() == 0 {
        Err(RangeError::Empty)
    } else {
        match bounds_spec(range_body(s)) {
            Err(e) => Err(e),
            Ok(b) => Ok(RangeThreshold { alert_inside: s[0] == '@', start: b.0, end: b.1 }),
        }
    }
}

impl RangeThreshold {
    /// Finite bounds are in order.
    pub open spec fn wf(self) -> bool {
        bounds_ordered(self.start, self.end)
    }

    /// `v` lies within `[start, end]`; not-a-number lies nowhere.
    pub open spec fn contains(self, v: Sample) -> bool {
        &&& !(v is NaN)
        &&& (self.start matches Some(a) ==> v.at_least(a))
        &&& (self.end matches Some(b) ==> v.at_most(b))
    }

    /// `v` lies below the start or above the end; not-a-number lies nowhere.
    pub open spec fn excludes(self, v: Sample) -> bool {
        &&& !(v is NaN)
        &&& !self.contains(v)
    }

    /// The alarm fires for `v`: inside the range for an inside range,
    /// outside it otherwise.
    pub open spec fn fires(self, v: Sample) -> bool {
        if self.alert_inside {
            self.contains(v)
        } else {
            self.excludes(v)
        }
    }

    /// The canonical text: `@` for inside ranges, `~` for an infinite bound,
    /// and always `start:end`.
    pub open spec fn text(self) -> Seq<char> {
        (if self.alert_inside {
            seq!['@']
        } else {
            seq![]
        }) + (match self.start {
            None => tilde(),
            Some(a) => a.plain_text(),
        }) + seq![':'] + (match self.end {
            None => tilde(),
            Some(b) => b.plain_text(),
        })
    }

    /// Reads a range text.
    pub fn parse(text: &str) -> (r: Result<RangeThreshold, RangeError>)
        ensures
            r == parse_spec(text@),
            r matches Ok(t) ==> t.wf(),
    {
        let s = chars_of(text);
        if s.len() == 0 {
            return Err(RangeError::Empty);
        }
        let inside = s[0] == '@';
        let from: usize = if inside {
            1
        } else {
            0
        };
        let mut body: Vec<char> = Vec::new();
        push_range(&mut body, &s, from, s.len());
        assert(body@ =~= range_body(s@));
        match parse_bounds(&body) {
            Err(e) => Err(e),
            Ok((start, end)) => Ok(RangeThreshold { alert_inside: inside, start, end }),
        }
    }

    /// Whether the alarm fires for `value`.
    pub fn evaluate(&self, value: &Sample) -> (r: bool)
        ensures
            r == self.fires(*value),
    {
        if value.is_nan() {
            return false;
        }
        let above_start = match &self.start {
            None => true,
            Some(a) => value.is_at_least(a),
        };
        let below_end = match &self.end {
            None => true,
            Some(b) => value.is_at_most(b),
        };
        if self.alert_inside {
            above_start && below_end
        } else {
            !above_start || !below_end
        }
    }

    /// Appends the canonical text to `out`.
    pub fn push_text(&self, out: &mut Vec<char>)
        ensures
            final(out)@ == old(out)@ + self.text(),
    {
        if self.alert_inside {
            out.push('@');
        }
        match &self.start {
            None => out.push('~'),
            Some(a) => a.push_plain(out),
        }
        out.push(':');
        match &self.end {
            None => out.push('~'),
            Some(b) => b.push_plain(out),
        }
        assert(out@ =~= old(out)@ + self.text());
    }

    /// The canonical text.
    pub fn to_text(&self) -> (r: String)
        ensures
            r@ == self.text(),
    {
        let mut out: Vec<char> = Vec::new();
        self.push_text(&mut out);
        assert(out@ =~= self.text());
        string_of(&out)
    }
}

/// The bounds of a range body.
fn parse_bounds(body: &Vec<char>) -> (r: Result<(Option<Decimal>, Option<Decimal>), RangeError>)
    ensures
        r == bounds_spec(body@),
        r matches Ok(b) ==> bounds_ordered(b.0, b.1),
{
    match find_colon(body) {
        Some(c) => {
            let mut left: Vec<char> = Vec::new();
            assert(c < body.len());
            push_range(&mut left, body, 0, c);
            let mut right: Vec<char> = Vec::new();
            push_range(&mut right, body, c + 1, body.len());
            assert(left@ =~= body@.take(c as int));
            assert(right@ =~= body@.skip(c + 1));
            parse_colon_bounds(&left, &right)
        },
        None => parse_single_bound(body),
    }
}

/// The bounds of `left:right`.
fn parse_colon_bounds(left: &Vec<char>, right: &Vec<char>) -> (r: Result<(Option<Decimal>, Option<Decimal>), RangeError>)
    ensures
        r == colon_bounds_spec(left@, right@),
        r matches Ok(b) ==> bounds_ordered(b.0, b.1),
{
    let start = if is_tilde(left) {
        None
    } else if left.len() == 0 {
        Some(Decimal { mantissa: 0, exponent: 0 })
    } else {
        match Decimal::parse(left) {
            Some(d) => Some(d),
            None => {
                return Err(RangeError::InvalidStart);
            },
        }
    };
    let end = if is_tilde(right) || right.len() == 0 {
        None
    } else {
        match Decimal::parse(right) {
            Some(d) => Some(d),
            None => {
                return Err(RangeError::InvalidEnd);
            },
        }
    };
    if let (Some(a), Some(b)) = (start, end) {
        if !a.le(&b) {
            return Err(RangeError::StartGreaterThanEnd);
        }
    }
    Ok((start, end))
}

/// The bounds `[0, N]` of a single number.
fn parse_single_bound(body: &Vec<char>) -> (r: Result<(Option<Decimal>, Option<Decimal>), RangeError>)
    ensures
        r == single_bound_spec(body@),
        r matches Ok(b) ==> bounds_ordered(b.0, b.1),
{
    let zero = Decimal { mantissa: 0, exponent: 0 };
    match Decimal::parse(body) {
        None => Err(RangeError::InvalidEnd),
        Some(d) => {
            if !zero.le(&d) {
                Err(RangeError::StartGreaterThanEnd)
            } else {
                Ok((Some(zero), Some(d)))
            }
        },
    }
}

/// Whether `t` is the single character `~`.
fn is_tilde(t: &Vec<char>) -> (r: bool)
    ensures
        r == (t@ == tilde()),
{
    let r = t.len() == 1 && t[0] == '~';
    proof {
        if r {
            assert(t@ =~= tilde());
        }
    }
    r
}

/// The position of the first colon.
fn find_colon(s: &Vec<char>) -> (r: Option<usize>)
    ensures
        match r {
            Some(c) => c < s@.len() && first_colon(s@) == Some(c as int),
            None => first_colon(s@) is None,
        },
{
    let mut i: usize = 0;
    while i < s.len()
        invariant
            i <= s@.len(),
            forall|j: int| 0 <= j < i ==> s@[j] != ':',
        decreases s@.len() - i,
    {
        if s[i] == ':' {
            proof {
                let c = choose|k: int| 0 <= k < s@.len() && s@[k] == ':' && forall|j: int| 0 <= j < k ==> s@[j] != ':';
                assert(0 <= i < s@.len() && s@[i as int] == ':' && forall|j: int| 0 <= j < i ==> s@[j] != ':');
                if c < i {
                } else if c > i {
                    assert(s@[i as int] != ':');
                }
                assert(c == i);
            }
            return Some(i);
        }
        i = i + 1;
    }
    None
}

} // verus!
