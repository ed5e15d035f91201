//! Sample values of time series: finite decimals, the two infinities and
//! not-a-number, ordered and rendered as floating-point samples are.

use crate::decimal::Decimal;
use crate::parse::{is_number_text, number_decimal, number_fits};
use crate::text::{chars_of, push_str, string_of};
use vstd::prelude::*;

verus! {

/// The value of one sample.
#[derive(Clone, Copy, Debug, PartialEq, Eq, Structural)]
pub enum Sample {
    Finite(Decimal),
    PosInf,
    NegInf,
    NaN,
}

/// The text of a sample that is not finite.
pub open spec fn special_text(v: Sample) -> Seq<char> {
    match v {
        Sample::PosInf => "inf"@,
        Sample::NegInf => "-inf"@,
        _ => "NaN"@,
    }
}

impl Sample {
    /// `a <= self`; never for not-a-number.
    pub open spec fn at_least(self, a: Decimal) -> bool {
        match self {
            Sample::Finite(d) => a.spec_le(d),
            Sample::PosInf => true,
            _ => false,
        }
    }

    /// `self <= b`; never for not-a-number.
    pub open spec fn at_most(self, b: Decimal) -> bool {
        match self {
            Sample::Finite(d) => d.spec_le(b),
            Sample::NegInf => true,
            _ => false,
        }
    }

    /// `self < other`; never when either is not-a-number.
    pub open spec fn spec_lt(self, other: Sample) -> bool {
        match (self, other) {
            (Sample::Finite(a), Sample::Finite(b)) => a.spec_lt(b),
            (Sample::NegInf, Sample::Finite(_)) => true,
            (Sample::NegInf, Sample::PosInf) => true,
            (Sample::Finite(_), Sample::PosInf) => true,
            _ => false,
        }
    }

    /// The shortest text: the decimal's plain text, or `inf`, `-inf`, `NaN`.
    pub open spec fn plain_text(self) -> Seq<char> {
        match self {
            Sample::Finite(d) => d.plain_text(),
            _ => special_text(self),
        }
    }

    /// The value rounded to `prec` fraction digits.
    pub open spec fn fixed_text(self, prec: nat) -> Seq<char> {
        match self {
            Sample::Finite(d) => d.fixed_text(prec),
            _ => special_text(self),
        }
    }

    /// An integral value plainly, any other finite value rounded to `prec`
    /// fraction digits.
    pub open spec fn truncated_text(self, prec: nat) -> Seq<char> {
        match self {
            Sample::Finite(d) => d.truncated_text(prec),
            _ => special_text(self),
        }
    }

    /// The sample is not-a-number.
    pub fn is_nan(&self) -> (r: bool)
        ensures
            r == (*self is NaN),
    {
        match self {
            Sample::NaN => true,
            _ => false,
        }
    }

    /// `a <= self`.
    pub fn is_at_least(&self, a: &Decimal) -> (r: bool)
        ensures
            r == self.at_least(*a),
    {
        match self {
            Sample::Finite(d) => a.le(d),
            Sample::PosInf => true,
            _ => false,
        }
    }

    /// `self <= b`.
    pub fn is_at_most(&self, b: &Decimal) -> (r: bool)
        ensures
            r == self.at_most(*b),
    {
        match self {
            Sample::Finite(d) => d.le(b),
            Sample::NegInf => true,
            _ => false,
        }
    }

    /// `self < other`.
    pub fn lt(&self, other: &Sample) -> (r: bool)
        ensures
            r == self.spec_lt(*other),
    {
        match (self, other) {
            (Sample::Finite(a), Sample::Finite(b)) => a.lt(b),
            (Sample::NegInf, Sample::Finite(_)) => true,
            (Sample::NegInf, Sample::PosInf) => true,
            (Sample::Finite(_), Sample::PosInf) => true,
            _ => false,
        }
    }

    /// Reads a sample: `inf`, `-inf`, `NaN` or a decimal number.
    pub fn from_text(text: &str) -> (r: Option<Sample>)
        ensures
            text@ == "inf"@ ==> r == Some(Sample::PosInf),
            text@ == "-inf"@ ==> r == Some(Sample::NegInf),
            text@ == "NaN"@ ==> r == Some(Sample::NaN),
            text@ != "inf"@ && text@ != "-inf"@ && text@ != "NaN"@ ==> (r is Some <==> (
            is_number_text(text@) && number_fits(text@))) && (r is Some ==> r == Some(
                Sample::Finite(number_decimal(text@)),
            )),
    {
        proof {
            reveal_strlit("inf");
            reveal_strlit("-inf");
            reveal_strlit("NaN");
            assert("inf"@.len() == 3 && "-inf"@.len() == 4 && "NaN"@.len() == 3);
            assert("inf"@[0] != "NaN"@[0]);
            assert("inf"@ != "-inf"@ && "-inf"@ != "NaN"@ && "inf"@ != "NaN"@);
        }
        let cs = chars_of(text);
        if chars_are(&cs, "inf") {
            return Some(Sample::PosInf);
        }
        if chars_are(&cs, "-inf") {
            return Some(Sample::NegInf);
        }
        if chars_are(&cs, "NaN") {
            return Some(Sample::NaN);
        }
        match Decimal::parse(&cs) {
            Some(d) => Some(Sample::Finite(d)),
            None => None,
        }
    }

    fn push_special(&self, out: &mut Vec<char>)
        requires
            !(*self is Finite),
        ensures
            final(out)@ == old(out)@ + special_text(*self),
    {
        match self {
            Sample::PosInf => push_str(out, "inf"),
            Sample::NegInf => push_str(out, "-inf"),
            _ => push_str(out, "NaN"),
        }
    }

    /// Appends the plain text to `out`.
    pub fn push_plain(&self, out: &mut Vec<char>)
        ensures
            final(out)@ == old(out)@ + self.plain_text(),
    {
        match self {
            Sample::Finite(d) => d.push_plain(out),
            _ => self.push_special(out),
        }
    }

    /// Appends the value rounded to `prec` fraction digits to `out`.
    pub fn push_fixed(&self, out: &mut Vec<char>, prec: u16)
        ensures
            final(out)@ == old(out)@ + self.fixed_text(prec as nat),
    {
        match self {
            Sample::Finite(d) => d.push_fixed(out, prec),
            _ => self.push_special(out),
        }
    }

    /// Appends the truncated text to `out`.
    pub fn push_truncated(&self, out: &mut Vec<char>, prec: u16)
        ensures
            final(out)@ == old(out)@ + self.truncated_text(prec as nat),
    {
        match self {
            Sample::Finite(d) => d.push_truncated(out, prec),
            _ => self.push_special(out),
        }
    }

    /// The plain text.
    pub fn to_plain_string(&self) -> (r: String)
        ensures
            r@ == self.plain_text(),
    {
        let mut out: Vec<char> = Vec::new();
        self.push_plain(&mut out);
        assert(out@ =~= self.plain_text());
        string_of(&out)
    }

    /// An integral value plainly, any other finite value rounded to `prec`
    /// fraction digits.
    pub fn truncate_to_string(&self, prec: u16) -> (r: String)
        ensures
            r@ == self.truncated_text(prec as nat),
    {
        let mut out: Vec<char> = Vec::new();
        self.push_truncated(&mut out, prec);
        assert(out@ =~= self.truncated_text(prec as nat));
        string_of(&out)
    }
}

/// Whether `cs` holds exactly the characters of `s`.
fn chars_are(cs: &Vec<char>, s: &str) -> (r: bool)
    ensures
        r == (cs@ == s@),
{
    let t = chars_of(s);
    if cs.len() != t.len() {
        return false;
    }
    let mut i: usize = 0;
    while i < cs.len()
        invariant
            i <= cs@.len() == t@.len(),
            t@ == s@,
            forall|j: int| 0 <= j < i ==> cs@[j] == t@[j],
        decreases cs@.len() - i,
    {
        if cs[i] != t[i] {
            return false;
        }
        i = i + 1;
    }
    assert(cs@ =~= t@);
    true
}

} // verus!
