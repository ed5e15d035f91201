//! Reading decimal numbers from text.

use crate::decimal::{lemma_pow10_19, lemma_pow10_positive, pow10, Decimal};
use crate::render::trim_zeros;
use crate::roundtrip::lemma_number_decimal_canonical;
use crate::text::chars_of;
use vstd::prelude::*;

verus! {

pub open spec fn is_digit(c: char) -> bool {
    '0' <= c && c <= '9'
}

/// The value of a digit character.
pub open spec fn digit_value(c: char) -> nat {
    (c as u32 - 48) as nat
}

/// The integer written by a string of digits (zero for the empty string).
pub open spec fn digits_value(ds: Seq<char>) -> nat
    decreases ds.len(),
{
    if ds.len() == 0 {
        0
    } else {
        digits_value(ds.drop_last()) * 10 + digit_value(ds.last())
    }
}

/// Scans an unsigned number body left to right: its digits without the
/// decimal point, the count of digits after the point, and whether a point
/// was seen; `None` on any character that is neither a digit nor a single
/// point.
pub open spec fn number_parts(body: Seq<char>) -> Option<(Seq<char>, nat, bool)>
    decreases body.len(),
{
    if body.len() == 0 {
        Some((seq![], 0, false))
    } else {
        match number_parts(body.drop_last()) {
            None => None,
            Some(p) => {
                let c = body.last();
                if is_digit(c) {
                    Some((p.0.push(c), if p.2 { p.1 + 1 } else { p.1 }, p.2))
                } else if c == '.' && !p.2 {
                    Some((p.0, p.1, true))
                } else {
                    None
                }
            },
        }
    }
}

/// The length of a leading `+` or `-`.
pub open spec fn sign_len(s: Seq<char>) -> int {
    if s.len() > 0 && (s[0] == '-' || s[0] == '+') {
        1
    } else {
        0
    }
}

/// `s` is an optionally signed run of digits with at most one decimal
/// point and at least one digit.
pub open spec fn is_number_text(s: Seq<char>) -> bool {
    match number_parts(s.skip(sign_len(s))) {
        Some(p) => p.0.len() >= 1,
        None => false,
    }
}

/// The signed integer `n` with `s == n * 10^-f` (`s` a number text).
pub open spec fn number_scaled(s: Seq<char>) -> int {
    let parts = number_parts(s.skip(sign_len(s)))->0;
    let n = digits_value(parts.0) as int;
    if sign_len(s) == 1 && s[0] == '-' {
        -n
    } else {
        n
    }
}

/// The count `f` of fraction digits of a number text.
pub open spec fn number_frac_len(s: Seq<char>) -> nat {
    let parts = number_parts(s.skip(sign_len(s)))->0;
    parts.1
}

/// A number text whose value a `Decimal` can hold: zero, or at most 18
/// significant digits and an exponent in the range of `i16`.
pub open spec fn number_fits(s: Seq<char>) -> bool {
    let t = trim_zeros(abs(number_scaled(s)) as nat, -(number_frac_len(s) as int));
    t.0 == 0 || (t.0 < pow10(18) && -0x8000 <= t.1 <= 0x7fff)
}

/// The decimal that a number text denotes, in its canonical form: zero as
/// `0 * 10^0`, any other number without trailing zeros in its mantissa.
pub open spec fn number_decimal(s: Seq<char>) -> Decimal {
    let t = trim_zeros(abs(number_scaled(s)) as nat, -(number_frac_len(s) as int));
    if t.0 == 0 {
        Decimal { mantissa: 0, exponent: 0 }
    } else {
        Decimal {
            mantissa: (if number_scaled(s) < 0 {
                -(t.0 as int)
            } else {
                t.0 as int
            }) as i64,
            exponent: t.1 as i16,
        }
    }
}

pub open spec fn abs(a: int) -> int {
    if a < 0 {
        -a
    } else {
        a
    }
}

impl Decimal {
    /// The decimal is the number `n * 10^e`.
    pub open spec fn denotes(self, n: int, e: int) -> bool {
        let k = if self.exponent <= e {
            self.exponent as int
        } else {
            e
        };
        self.at_exp(k) == n * pow10((e - k) as nat)
    }

    /// Reads a decimal number: an optional sign, digits and at most one
    /// decimal point. `None` where the text is no such number or holds more
    /// significant digits or a larger exponent than a `Decimal` keeps.
    pub fn parse(s: &[char]) -> (r: Option<Decimal>)
        ensures
            r is Some <==> is_number_text(s@) && number_fits(s@),
            r is Some ==> r->0 == number_decimal(s@),
            r is Some ==> r->0.denotes(number_scaled(s@), -(number_frac_len(s@) as int)),
            r is Some ==> r->0.is_canonical(),
    {
        let start: usize = if s.len() > 0 && (s[0] == '-' || s[0] == '+') {
            1
        } else {
            0
        };
        let negative = start == 1 && s[0] == '-';
        let ghost body = s@.skip(start as int);
        assert(start == sign_len(s@));
        let mut ds: Vec<char> = Vec::new();
        let mut frac: usize = 0;
        let mut seen = false;
        let mut i: usize = start;
        while i < s.len()
            invariant
                start <= i <= s@.len(),
                body == s@.skip(start as int),
                number_parts(body.take(i - start)) == Some((ds@, frac as nat, seen)),
                forall|j: int| 0 <= j < ds@.len() ==> is_digit(#[trigger] ds@[j]),
                frac <= i,
                start == sign_len(s@),
            decreases s@.len() - i,
        {
            let c = s[i];
            assert(body.take(i + 1 - start).drop_last() =~= body.take(i - start));
            assert(body.take(i + 1 - start).last() == c);
            if '0' <= c && c <= '9' {
                ds.push(c);
                if seen {
                    frac = frac + 1;
                }
            } else if c == '.' && !seen {
                seen = true;
            } else {
                proof {
                    lemma_parts_none_extends(body, (i + 1 - start) as nat);
                }
                return None;
            }
            i = i + 1;
        }
        assert(body.take(i - start) =~= body);
        assert(start == sign_len(s@));
        if ds.len() == 0 {
            return None;
        }
        let r = decimal_of_digits(&ds, frac, negative);
        proof {
            if r is Some {
                lemma_number_decimal_canonical(s@);
            }
            let n = digits_value(ds@);
            assert(number_scaled(s@) == if negative { -(n as int) } else { n as int });
        }
        r
    }
}

impl Decimal {
    /// Reads a decimal number from a string; see `parse`.
    pub fn from_text(text: &str) -> (r: Option<Decimal>)
        ensures
            r is Some <==> is_number_text(text@) && number_fits(text@),
            r is Some ==> r->0 == number_decimal(text@),
    {
        let cs = chars_of(text);
        Decimal::parse(&cs)
    }
}

/// Once the scan fails it fails for every longer prefix.
proof fn lemma_parts_none_extends(body: Seq<char>, k: nat)
    requires
        k <= body.len(),
        number_parts(body.take(k as int)) is None,
    ensures
        number_parts(body) is None,
    decreases body.len() - k,
{
    if k < body.len() {
        assert(body.take(k + 1 as int).drop_last() =~= body.take(k as int));
        lemma_parts_none_extends(body, k + 1);
    } else {
        assert(body.take(k as int) =~= body);
    }
}

/// Appending zeros multiplies the value of a digit string by ten each.
proof fn lemma_value_zeros(ds: Seq<char>, k: nat)
    requires
        k <= ds.len(),
        forall|j: int| ds.len() - k <= j < ds.len() ==> ds[j] == '0',
    ensures
        digits_value(ds) == digits_value(ds.take(ds.len() - k)) * pow10(k),
    decreases k,
{
    if k == 0 {
        assert(ds.take(ds.len() as int) =~= ds);
        assert(pow10(0) == 1);
        assert(digits_value(ds) * pow10(0) == digits_value(ds)) by (nonlinear_arith)
            requires
                pow10(0) == 1,
        ;
    } else {
        let d = ds.drop_last();
        assert(d.take(d.len() - (k - 1)) =~= ds.take(ds.len() - k));
        lemma_value_zeros(d, (k - 1) as nat);
        assert(ds.last() == '0');
        assert(digit_value('0') == 0);
        let x = digits_value(ds.take(ds.len() - k));
        assert(digits_value(ds) == (x * pow10((k - 1) as nat)) * 10);
        assert((x * pow10((k - 1) as nat)) * 10 == x * pow10(k)) by (nonlinear_arith)
            requires
                pow10(k) == 10 * pow10((k - 1) as nat),
        ;
    }
}

/// Longer prefixes of a digit string have larger values.
proof fn lemma_value_prefix_monotonic(ds: Seq<char>, j: nat, k: nat)
    requires
        j <= k <= ds.len(),
    ensures
        digits_value(ds.take(j as int)) <= digits_value(ds.take(k as int)),
    decreases k - j,
{
    if j < k {
        lemma_value_prefix_monotonic(ds, j, (k - 1) as nat);
        assert(ds.take(k as int).drop_last() =~= ds.take(k - 1 as int));
    }
}

/// Trailing zeros of `x * 10^z` move into the exponent.
pub proof fn lemma_trim_shift(x: nat, z: nat, e: int)
    requires
        x > 0,
    ensures
        trim_zeros(x * pow10(z), e) == trim_zeros(x, e + z),
    decreases z,
{
    if z == 0 {
        assert(pow10(0) == 1);
        assert(x * pow10(0) == x) by (nonlinear_arith)
            requires
                pow10(0) == 1,
        ;
    } else {
        lemma_pow10_positive((z - 1) as nat);
        let y = x * pow10((z - 1) as nat);
        assert(x * pow10(z) == y * 10) by (nonlinear_arith)
            requires
                pow10(z) == 10 * pow10((z - 1) as nat),
                y == x * pow10((z - 1) as nat),
        ;
        assert(y > 0) by (nonlinear_arith)
            requires
                x > 0,
                pow10((z - 1) as nat) >= 1,
                y == x * pow10((z - 1) as nat),
        ;
        assert((y * 10) / 10 == y);
        assert((y * 10) % 10 == 0);
        lemma_trim_shift(x, (z - 1) as nat, e + 1);
    }
}

/// A digit string ending in a non-zero digit has a positive value that ten
/// does not divide.
proof fn lemma_last_digit(ds: Seq<char>, last: nat)
    requires
        last < ds.len(),
        ds[last as int] != '0',
        forall|j: int| 0 <= j < ds.len() ==> is_digit(#[trigger] ds[j]),
    ensures
        digits_value(ds.take(last + 1 as int)) > 0,
        digits_value(ds.take(last + 1 as int)) % 10 != 0,
{
    let head = ds.take(last + 1 as int);
    assert(head.drop_last() =~= ds.take(last as int));
    assert(head.last() == ds[last as int]);
    assert(is_digit(ds[last as int]));
    let c = ds[last as int];
    assert(c as u32 != 48);
    let d = digit_value(c);
    assert(1 <= d <= 9);
    let y = digits_value(head.drop_last());
    assert(digits_value(head) == y * 10 + d);
    assert((y * 10 + d) % 10 == d) by (nonlinear_arith)
        requires
            1 <= d <= 9,
    ;
}

/// The decimal of the digit string `ds` scaled by `10^-frac`, negated when
/// `negative`.
fn decimal_of_digits(ds: &Vec<char>, frac: usize, negative: bool) -> (r: Option<Decimal>)
    requires
        ds@.len() >= 1,
        forall|j: int| 0 <= j < ds@.len() ==> is_digit(#[trigger] ds@[j]),
    ensures
        ({
            let n = digits_value(ds@);
            let t = trim_zeros(n, -(frac as int));
            &&& r is Some <==> (t.0 == 0 || (t.0 < pow10(18) && -0x8000 <= t.1 <= 0x7fff))
            &&& r is Some ==> r->0.denotes(
                if negative {
                    -(n as int)
                } else {
                    n as int
                },
                -(frac as int),
            )
            &&& r is Some ==> r->0 == (if t.0 == 0 {
                Decimal { mantissa: 0, exponent: 0 }
            } else {
                Decimal {
                    mantissa: (if negative {
                        -(t.0 as int)
                    } else {
                        t.0 as int
                    }) as i64,
                    exponent: t.1 as i16,
                }
            })
        }),
{
    let ghost n = digits_value(ds@);
    // the last non-zero digit
    let mut last: usize = ds.len();
    let mut j: usize = ds.len();
    while j > 0
        invariant
            j <= ds@.len(),
            last == ds@.len() || (j <= last < ds@.len() && ds@[last as int] != '0'),
            last == ds@.len() ==> forall|m: int| j <= m < ds@.len() ==> ds@[m] == '0',
            last < ds@.len() ==> forall|m: int| last < m < ds@.len() ==> ds@[m] == '0',
        decreases j,
    {
        j = j - 1;
        if last == ds.len() && ds[j] != '0' {
            last = j;
        }
    }
    if last == ds.len() {
        proof {
            lemma_value_zeros(ds@, ds@.len());
            assert(ds@.take(0) =~= Seq::<char>::empty());
            assert(digits_value(Seq::<char>::empty()) == 0);
            assert(n == 0 * pow10(ds@.len()));
            assert(n == 0);
            let r = Decimal { mantissa: 0, exponent: 0 };
            let k = if r.exponent <= -(frac as int) { r.exponent as int } else { -(frac as int) };
            let p = pow10((r.exponent - k) as nat);
            assert(r.mantissa as int * p == 0) by (nonlinear_arith)
                requires
                    r.mantissa == 0,
            ;
            assert(r.at_exp(k) == 0);
            assert(0 * pow10((-(frac as int) - k) as nat) == 0);
        }
        return Some(Decimal { mantissa: 0, exponent: 0 });
    }
    let zeros = ds.len() - 1 - last;
    let ghost head = ds@.take(last + 1);
    proof {
        lemma_value_zeros(ds@, zeros as nat);
        assert(ds@.take(ds@.len() - zeros) =~= head);
    }
    // the value of the digits up to the last non-zero one
    let bound: u64 = 1_000_000_000_000_000_000;
    let mut mant: u64 = 0;
    let mut k: usize = 0;
    proof {
        lemma_pow10_19();
        assert(ds@.take(0) =~= Seq::<char>::empty());
    }
    while k <= last
        invariant
            ds@[last as int] != '0',
            ds@.len() <= usize::MAX,
            zeros == ds@.len() - 1 - last,
            forall|m: int| last < m < ds@.len() ==> ds@[m] == '0',
            n == digits_value(head) * pow10(zeros as nat),
            n == digits_value(ds@),
            k <= last + 1,
            last < ds@.len(),
            head == ds@.take(last + 1),
            mant == digits_value(ds@.take(k as int)),
            mant < bound,
            bound == pow10(18),
            forall|j: int| 0 <= j < ds@.len() ==> is_digit(#[trigger] ds@[j]),
        decreases last + 1 - k,
    {
        proof {
            lemma_pow10_19();
        }
        let d = (ds[k] as u32 - 48) as u64;
        assert(ds@.take(k + 1).drop_last() =~= ds@.take(k as int));
        assert(ds@.take(k + 1).last() == ds@[k as int]);
        if mant > (bound - 1 - d) / 10 {
            proof {
                assert(mant * 10 + d >= bound) by (nonlinear_arith)
                    requires
                        mant > (bound - 1 - d) / 10,
                        d <= 9,
                        bound > 10,
                ;
                lemma_value_prefix_monotonic(ds@, (k + 1) as nat, (last + 1) as nat);
                assert(head =~= ds@.take(last + 1));
                lemma_pow10_positive(zeros as nat);
                let x = digits_value(head);
                assert(digits_value(ds@.take(k + 1)) == mant * 10 + d);
                assert(x >= bound);
                lemma_last_digit(ds@, last as nat);
                lemma_trim_shift(x, zeros as nat, -(frac as int));
                let e1 = -(frac as int) + zeros;
                assert(trim_zeros(x, e1) == (x, e1));
                assert(trim_zeros(n, -(frac as int)) == (x, e1));
                let t = trim_zeros(digits_value(ds@), -(frac as int));
                assert(t.0 == x);
                assert(!(t.0 == 0 || (t.0 < pow10(18) && -0x8000 <= t.1 <= 0x7fff)));
            }
            return None;
        }
        mant = mant * 10 + d;
        k = k + 1;
    }
    let ghost x = digits_value(head);
    proof {
        assert(ds@.take(k as int) =~= head);
        lemma_last_digit(ds@, last as nat);
        lemma_trim_shift(x, zeros as nat, -(frac as int));
    }
    let e: i16 = if zeros >= frac {
        if zeros - frac > 0x7fff {
            return None;
        }
        assert(0 <= zeros - frac <= 0x7fff);
        (zeros - frac) as i16
    } else {
        if frac - zeros > 0x8000 {
            return None;
        }
        (-((frac - zeros) as i32)) as i16
    };
    assert(e as int == zeros - frac);
    let m: i64 = if negative {
        -(mant as i64)
    } else {
        mant as i64
    };
    let r = Decimal { mantissa: m, exponent: e };
    proof {
        let k = -(frac as int);
        assert(r.exponent as int == zeros - frac);
        assert(r.exponent as int - k == zeros);
        assert(n == x * pow10(zeros as nat));
        assert(r.at_exp(k) == m * pow10(zeros as nat));
        assert((-(frac as int) - k) == 0);
        assert(pow10(0) == 1);
        let v = if negative { -(n as int) } else { n as int };
        assert(v * pow10(0) == v) by (nonlinear_arith)
            requires
                pow10(0) == 1,
        ;
        if negative {
            assert(m * pow10(zeros as nat) == -(x * pow10(zeros as nat))) by (nonlinear_arith)
                requires
                    m == -(x as int),
            ;
        }
        assert(r.denotes(v, k));
        assert(x > 0);
        let t = trim_zeros(n, -(frac as int));
        let e1 = -(frac as int) + zeros;
        assert(trim_zeros(x, e1) == (x, e1));
        assert(t == (x, e1));
    }
    Some(r)
}

} // verus!
