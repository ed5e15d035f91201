//! Text forms read back: the plain text of a decimal and the canonical text
//! of a range parse to the values they were made from.

use crate::decimal::{lemma_pow10_19, pow10, Decimal};
use crate::parse::{
    lemma_trim_shift, digit_value, digits_value, is_digit, is_number_text, number_decimal, number_fits,
    number_frac_len, number_parts, number_scaled, sign_len,
};
use crate::render::{positional, sign_text, trim_zeros};
use crate::range::{
    colon_bounds_spec, end_of, first_colon, number_ok, parse_spec, range_body,
    start_of, tilde, RangeThreshold,
};
use crate::text::{digit_char, digits_of, pad_left, repeat};
use vstd::prelude::*;

verus! {

/// All characters are digits.
pub open spec fn all_digits(s: Seq<char>) -> bool {
    forall|i: int| 0 <= i < s.len() ==> is_digit(#[trigger] s[i])
}

proof fn lemma_digit_char(d: nat)
    requires
        d < 10,
    ensures
        is_digit(digit_char(d)),
        digit_value(digit_char(d)) == d,
        digit_char(d) != '.',
        digit_char(d) != '-',
{
}

/// The digits of a number are digits, and read back as the number.
proof fn lemma_digits_of(n: nat)
    ensures
        all_digits(digits_of(n)),
        digits_of(n).len() >= 1,
        digits_value(digits_of(n)) == n,
    decreases n,
{
    if n < 10 {
        lemma_digit_char(n);
        let s = digits_of(n);
        assert(s.drop_last() =~= Seq::<char>::empty());
        assert(digits_value(Seq::<char>::empty()) == 0);
        assert(s.last() == digit_char(n));
        assert(digits_value(s) == 0 * 10 + digit_value(digit_char(n)));
    } else {
        lemma_digits_of(n / 10);
        lemma_digit_char(n % 10);
        let s = digits_of(n);
        assert(s.drop_last() =~= digits_of(n / 10));
        assert(s.last() == digit_char(n % 10));
        assert(digits_value(s) == (n / 10) * 10 + n % 10);
        assert((n / 10) * 10 + n % 10 == n) by (nonlinear_arith);
        assert forall|i: int| 0 <= i < s.len() implies is_digit(#[trigger] s[i]) by {
            if i < s.len() - 1 {
                assert(s[i] == digits_of(n / 10)[i]);
            }
        }
    }
}

/// A run of digits scans as itself, without a point.
proof fn lemma_parts_digits(s: Seq<char>)
    requires
        all_digits(s),
    ensures
        number_parts(s) == Some((s, 0nat, false)),
    decreases s.len(),
{
    if s.len() > 0 {
        let p = s.drop_last();
        assert(all_digits(p)) by {
            assert forall|i: int| 0 <= i < p.len() implies is_digit(#[trigger] p[i]) by {
                assert(p[i] == s[i]);
            }
        }
        lemma_parts_digits(p);
        assert(is_digit(s[s.len() - 1]));
        assert(p.push(s.last()) =~= s);
    }
}

/// Digits, a point and digits scan as the digits together and the count
/// after the point.
proof fn lemma_parts_point(a: Seq<char>, b: Seq<char>)
    requires
        all_digits(a),
        all_digits(b),
    ensures
        number_parts(a + seq!['.'] + b) == Some((a + b, b.len(), true)),
    decreases b.len(),
{
    if b.len() == 0 {
        lemma_parts_digits(a);
        let s = a + seq!['.'] + b;
        assert(s.drop_last() =~= a);
        assert(s.last() == '.');
        assert(a + b =~= a);
    } else {
        let b1 = b.drop_last();
        assert(all_digits(b1)) by {
            assert forall|i: int| 0 <= i < b1.len() implies is_digit(#[trigger] b1[i]) by {
                assert(b1[i] == b[i]);
            }
        }
        lemma_parts_point(a, b1);
        let s = a + seq!['.'] + b;
        assert(s.drop_last() =~= a + seq!['.'] + b1);
        assert(s.last() == b.last());
        assert(is_digit(b[b.len() - 1]));
        assert((a + b1).push(b.last()) =~= a + b);
    }
}

/// Leading zeros do not change the value of a digit string.
proof fn lemma_value_leading_zeros(k: nat, s: Seq<char>)
    ensures
        digits_value(repeat('0', k) + s) == digits_value(s),
    decreases s.len(),
{
    if s.len() == 0 {
        lemma_value_all_zeros(k);
        assert(repeat('0', k) + s =~= repeat('0', k));
    } else {
        lemma_value_leading_zeros(k, s.drop_last());
        assert((repeat('0', k) + s).drop_last() =~= repeat('0', k) + s.drop_last());
        assert((repeat('0', k) + s).last() == s.last());
    }
}

/// A string of zeros is worth zero.
proof fn lemma_value_all_zeros(k: nat)
    ensures
        digits_value(repeat('0', k)) == 0,
    decreases k,
{
    if k > 0 {
        lemma_value_all_zeros((k - 1) as nat);
        assert(repeat('0', k).drop_last() =~= repeat('0', (k - 1) as nat));
        assert(digit_value('0') == 0);
    }
}

/// Trailing zeros multiply the value by ten each.
proof fn lemma_value_trailing_zeros(s: Seq<char>, k: nat)
    ensures
        digits_value(s + repeat('0', k)) == digits_value(s) * pow10(k),
    decreases k,
{
    if k == 0 {
        assert(s + repeat('0', 0) =~= s);
        assert(pow10(0) == 1);
        assert(digits_value(s) * pow10(0) == digits_value(s)) by (nonlinear_arith)
            requires
                pow10(0) == 1,
        ;
    } else {
        lemma_value_trailing_zeros(s, (k - 1) as nat);
        let t = s + repeat('0', k);
        assert(t.drop_last() =~= s + repeat('0', (k - 1) as nat));
        assert(t.last() == '0');
        assert(digit_value('0') == 0);
        let v = digits_value(s);
        assert((v * pow10((k - 1) as nat)) * 10 == v * pow10(k)) by (nonlinear_arith)
            requires
                pow10(k) == 10 * pow10((k - 1) as nat),
        ;
    }
}

/// Zeros are digits.
proof fn lemma_zeros_digits(k: nat)
    ensures
        all_digits(repeat('0', k)),
{
}

impl Decimal {
    /// The canonical form that reading a number text gives: zero as
    /// `0 * 10^0`, any other number without trailing zeros, with at most 18
    /// digits.
    pub open spec fn is_canonical(self) -> bool {
        &&& -1_000_000_000_000_000_000 < self.mantissa < 1_000_000_000_000_000_000
        &&& (self.mantissa == 0 ==> self.exponent == 0)
        &&& (self.mantissa != 0 ==> self.mantissa % 10 != 0)
    }
}

/// The positional text of `n * 10^e` scans as the digits `r.0` with `r.1`
/// fraction digits, worth `n * 10^(e + r.1)`, and starts with a digit.
proof fn lemma_positional_parts(n: nat, e: int) -> (r: (Seq<char>, nat))
    requires
        n == 0 ==> e == 0,
    ensures
        number_parts(positional(n, e)) matches Some(p) && p.0 == r.0 && p.1 == r.1,
        r.0.len() >= 1,
        positional(n, e).len() >= 1,
        is_digit(positional(n, e)[0]),
        e + r.1 >= 0,
        digits_value(r.0) == n * pow10((e + r.1) as nat),
{
    lemma_digits_of(n);
    let body = positional(n, e);
    if n == 0 {
        lemma_digit_char(0);
        assert(digits_of(0) == seq![digit_char(0)]);
        assert(body == seq!['0']);
        lemma_parts_digits(body);
        assert(pow10(0) == 1);
        (body, 0)
    } else if e >= 0 {
        lemma_zeros_digits(e as nat);
        let ds = digits_of(n);
        assert(all_digits(body)) by {
            assert forall|i: int| 0 <= i < body.len() implies is_digit(#[trigger] body[i]) by {
                if i < ds.len() {
                    assert(body[i] == ds[i]);
                } else {
                    assert(body[i] == repeat('0', e as nat)[i - ds.len()]);
                }
            }
        }
        assert(is_digit(body[0]));
        lemma_parts_digits(body);
        lemma_value_trailing_zeros(ds, e as nat);
        (body, 0)
    } else {
        let k = (-e) as nat;
        let ds = digits_of(n);
        let p = pad_left(ds, k + 1);
        assert(all_digits(p) && digits_value(p) == n) by {
            if ds.len() < k + 1 {
                let z = repeat('0', (k + 1 - ds.len()) as nat);
                lemma_zeros_digits((k + 1 - ds.len()) as nat);
                assert forall|i: int| 0 <= i < p.len() implies is_digit(#[trigger] p[i]) by {
                    if i < z.len() {
                        assert(p[i] == z[i]);
                    } else {
                        assert(p[i] == ds[i - z.len()]);
                    }
                }
                lemma_value_leading_zeros((k + 1 - ds.len()) as nat, ds);
            }
        }
        let a = p.take(p.len() - k);
        let b = p.skip(p.len() - k);
        assert(all_digits(a)) by {
            assert forall|i: int| 0 <= i < a.len() implies is_digit(#[trigger] a[i]) by {
                assert(a[i] == p[i]);
            }
        }
        assert(all_digits(b)) by {
            assert forall|i: int| 0 <= i < b.len() implies is_digit(#[trigger] b[i]) by {
                assert(b[i] == p[i + p.len() - k]);
            }
        }
        assert(body == a + seq!['.'] + b);
        lemma_parts_point(a, b);
        assert(a + b =~= p);
        assert(body[0] == a[0]);
        assert(pow10(0) == 1);
        assert(n * pow10(0) == n) by (nonlinear_arith)
            requires
                pow10(0) == 1,
        ;
        (p, k)
    }
}

/// The plain text of a canonical decimal reads back as the same decimal:
/// the text form round-trips.
pub proof fn lemma_plain_text_round_trip(d: Decimal)
    requires
        d.is_canonical(),
    ensures
        is_number_text(d.plain_text()),
        number_fits(d.plain_text()),
        number_decimal(d.plain_text()) == d,
{
    let m = d.mantissa as int;
    let e = d.exponent as int;
    let n: nat = if m < 0 {
        (-m) as nat
    } else {
        m as nat
    };
    assert(n % 10 != 0 || n == 0) by {
        if m < 0 && m % 10 != 0 {
            assert((-m) % 10 != 0) by (nonlinear_arith)
                requires
                    m % 10 != 0,
            ;
        }
    }
    assert(trim_zeros(n, e) == (n, e));
    let body = positional(n, e);
    let text = d.plain_text();
    assert(text == sign_text(m < 0) + body);
    let r = lemma_positional_parts(n, e);
    let ds = r.0;
    let f = r.1;
    if m < 0 {
        assert(text[0] == '-');
        assert(sign_len(text) == 1);
        assert(text.skip(1) =~= body);
    } else {
        assert(text =~= body);
        assert(sign_len(text) == 0);
        assert(text.skip(0) =~= body);
    }
    assert(number_frac_len(text) == f);
    assert(is_number_text(text));
    assert(number_scaled(text) == if m < 0 {
        -(digits_value(ds) as int)
    } else {
        digits_value(ds) as int
    });
    lemma_pow10_19();
    if n > 0 {
        lemma_trim_shift(n, (e + f) as nat, -(f as int));
        assert(trim_zeros(n, -(f as int) + (e + f)) == (n, -(f as int) + (e + f)));
        assert(-(f as int) + (e + f) == e);
        assert(trim_zeros(digits_value(ds), -(f as int)) == (n, e));
    } else {
        assert(digits_value(ds) == 0) by (nonlinear_arith)
            requires
                n == 0,
                digits_value(ds) == n * pow10((e + f) as nat),
        ;
    }
}

/// Trimming leaves a number that ten does not divide, or zero.
proof fn lemma_trim_result(n: nat, e: int)
    ensures
        trim_zeros(n, e).0 == 0 || trim_zeros(n, e).0 % 10 != 0,
        trim_zeros(n, e).0 <= n,
    decreases n,
{
    if n > 0 && n % 10 == 0 {
        lemma_trim_result(n / 10, e + 1);
    }
}

/// Reading a number text that fits gives a canonical decimal.
pub proof fn lemma_number_decimal_canonical(s: Seq<char>)
    requires
        number_fits(s),
    ensures
        number_decimal(s).is_canonical(),
{
    let n = crate::parse::abs(number_scaled(s)) as nat;
    let t = trim_zeros(n, -(number_frac_len(s) as int));
    lemma_trim_result(n, -(number_frac_len(s) as int));
    lemma_pow10_19();
    if t.0 != 0 {
        let x = t.0 as int;
        if number_scaled(s) < 0 {
            assert((-x) % 10 != 0) by (nonlinear_arith)
                requires
                    x % 10 != 0,
            ;
        }
    }
}

/// The characters of a scanned number body are digits and points.
proof fn lemma_parts_chars(s: Seq<char>)
    requires
        number_parts(s) is Some,
    ensures
        forall|i: int| 0 <= i < s.len() ==> is_digit(#[trigger] s[i]) || s[i] == '.',
    decreases s.len(),
{
    if s.len() > 0 {
        lemma_parts_chars(s.drop_last());
        assert forall|i: int| 0 <= i < s.len() implies is_digit(#[trigger] s[i]) || s[i] == '.' by {
            if i < s.len() - 1 {
                assert(s.drop_last()[i] == s[i]);
            }
        }
    }
}

/// The text of a bound: `~` for an infinite one.
pub open spec fn bound_text(b: Option<Decimal>) -> Seq<char> {
    match b {
        None => tilde(),
        Some(d) => d.plain_text(),
    }
}

/// The text of a bound: digits, signs and points, or `~`; never empty, no
/// colon, no `@`.
proof fn lemma_bound_text(b: Option<Decimal>)
    requires
        b matches Some(d) ==> d.is_canonical(),
    ensures
        bound_text(b).len() >= 1,
        forall|i: int| 0 <= i < bound_text(b).len() ==> bound_text(b)[i] != ':' && bound_text(b)[i] != '@',
        b is None <==> bound_text(b) == tilde(),
        b matches Some(d) ==> number_ok(bound_text(b)) && number_decimal(bound_text(b)) == d,
{
    if let Some(d) = b {
        lemma_plain_text_round_trip(d);
        let m = d.mantissa as int;
        let n: nat = if m < 0 {
            (-m) as nat
        } else {
            m as nat
        };
        assert(n % 10 != 0 || n == 0) by {
            if m < 0 && m % 10 != 0 {
                assert((-m) % 10 != 0) by (nonlinear_arith)
                    requires
                        m % 10 != 0,
                ;
            }
        }
        assert(trim_zeros(n, d.exponent as int) == (n, d.exponent as int));
        let body = positional(n, d.exponent as int);
        let _ = lemma_positional_parts(n, d.exponent as int);
        lemma_parts_chars(body);
        let t = d.plain_text();
        assert(t == sign_text(m < 0) + body);
        assert forall|i: int| 0 <= i < t.len() implies t[i] != ':' && t[i] != '@' by {
            if m < 0 && i == 0 {
            } else {
                let j = if m < 0 { i - 1 } else { i };
                assert(t[i] == body[j]);
            }
        }
        assert(t != tilde()) by {
            if m < 0 {
                assert(t[0] == '-');
            } else {
                assert(t[0] == body[0]);
            }
        }
    }
}

/// The first colon of `left:right` is the one after `left` when `left` has
/// none.
proof fn lemma_split_at_colon(left: Seq<char>, right: Seq<char>)
    requires
        forall|i: int| 0 <= i < left.len() ==> left[i] != ':',
    ensures
        first_colon(left + seq![':'] + right) == Some(left.len() as int),
        (left + seq![':'] + right).take(left.len() as int) == left,
        (left + seq![':'] + right).skip(left.len() + 1 as int) == right,
{
    let body = left + seq![':'] + right;
    assert(body[left.len() as int] == ':');
    assert(exists|i: int| 0 <= i < body.len() && body[i] == ':');
    let c = choose|i: int| 0 <= i < body.len() && body[i] == ':' && forall|j: int| 0 <= j < i ==> body[j] != ':';
    assert(0 <= left.len() < body.len() && body[left.len() as int] == ':' && forall|j: int| 0 <= j < left.len() ==> body[j] != ':') by {
        assert forall|j: int| 0 <= j < left.len() implies body[j] != ':' by {
            assert(body[j] == left[j]);
        }
    }
    if c < left.len() {
        assert(body[c] == left[c]);
    } else if c > left.len() {
        assert(body[left.len() as int] != ':');
    }
    assert(body.take(left.len() as int) =~= left);
    assert(body.skip(left.len() + 1 as int) =~= right);
}

/// The two bound texts read back as the bounds.
proof fn lemma_colon_bounds(r: RangeThreshold)
    requires
        r.wf(),
        r.start matches Some(a) ==> a.is_canonical(),
        r.end matches Some(b) ==> b.is_canonical(),
    ensures
        colon_bounds_spec(bound_text(r.start), bound_text(r.end)) == Ok::<
            (Option<Decimal>, Option<Decimal>),
            crate::range::RangeError,
        >((r.start, r.end)),
{
    lemma_bound_text(r.start);
    lemma_bound_text(r.end);
    assert(start_of(bound_text(r.start)) == r.start);
    assert(end_of(bound_text(r.end)) == r.end);
}

/// The text of a range is an optional `@` and the body `start:end`.
proof fn lemma_range_text_shape(r: RangeThreshold)
    requires
        r.start matches Some(a) ==> a.is_canonical(),
    ensures
        r.text().len() > 0,
        (r.text()[0] == '@') == r.alert_inside,
        range_body(r.text()) == bound_text(r.start) + seq![':'] + bound_text(r.end),
{
    lemma_bound_text(r.start);
    let left = bound_text(r.start);
    let body = left + seq![':'] + bound_text(r.end);
    let s = r.text();
    if r.alert_inside {
        assert(s =~= seq!['@'] + body);
        assert(range_body(s) =~= body);
    } else {
        assert(s =~= body);
        assert(s[0] == left[0]);
        assert(left[0] != '@');
        assert(range_body(s) =~= body);
    }
}

/// A text with the given body and polarity reads as the range of the
/// body's bounds.
proof fn lemma_parse_from_parts(s: Seq<char>, body: Seq<char>, r: RangeThreshold)
    requires
        s.len() > 0,
        (s[0] == '@') == r.alert_inside,
        range_body(s) == body,
        crate::range::bounds_spec(body) == Ok::<
            (Option<Decimal>, Option<Decimal>),
            crate::range::RangeError,
        >((r.start, r.end)),
    ensures
        parse_spec(s) == Ok::<RangeThreshold, crate::range::RangeError>(r),
{
}

/// The canonical text of a range with canonical bounds reads back as the
/// same range.
pub proof fn lemma_range_text_round_trip(r: RangeThreshold)
    requires
        r.wf(),
        r.start matches Some(a) ==> a.is_canonical(),
        r.end matches Some(b) ==> b.is_canonical(),
    ensures
        parse_spec(r.text()) == Ok::<RangeThreshold, crate::range::RangeError>(r),
{
    let left = bound_text(r.start);
    let right = bound_text(r.end);
    let body = left + seq![':'] + right;
    assert(crate::range::bounds_spec(body) == Ok::<
        (Option<Decimal>, Option<Decimal>),
        crate::range::RangeError,
    >((r.start, r.end))) by {
        lemma_bound_text(r.start);
        lemma_split_at_colon(left, right);
        lemma_colon_bounds(r);
    }
    let s = r.text();
    assert(s.len() > 0 && (s[0] == '@') == r.alert_inside && range_body(s) == body) by {
        lemma_range_text_shape(r);
    }
    lemma_parse_from_parts(s, body, r);
}

/// Reading a range text, displaying the range and reading the display
/// again gives the same range.
pub proof fn lemma_parse_display_round_trip(s: Seq<char>)
    requires
        parse_spec(s) is Ok,
    ensures
        parse_spec(parse_spec(s)->Ok_0.text()) == parse_spec(s),
{
    let r = parse_spec(s)->Ok_0;
    let body = range_body(s);
    match first_colon(body) {
        Some(c) => {
            let left = body.take(c);
            let right = body.skip(c + 1);
            if left != tilde() && left.len() != 0 {
                lemma_number_decimal_canonical(left);
            }
            if right != tilde() && right.len() != 0 {
                lemma_number_decimal_canonical(right);
            }
        },
        None => {
            lemma_number_decimal_canonical(body);
        },
    }
    lemma_range_text_round_trip(r);
}

} // verus!
