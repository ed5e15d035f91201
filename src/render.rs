//! Textual renderings of decimals: the shortest positional form, a fixed
//! number of fraction digits, and the truncation rule of status texts.

use crate::decimal::{abs_int, lemma_pow10_19, lemma_pow10_monotonic,
    lemma_pow10_positive, pow10, pow10_u64, Decimal};
use crate::text::{digits, digits_of, point_seq, push_chars, push_point_seq, push_repeat, repeat,
    string_of};
use vstd::prelude::*;

verus! {

/// `n * 10^e` with the trailing zeros of `n` moved into the exponent.
pub open spec fn trim_zeros(n: nat, e: int) -> (nat, int)
    decreases n,
{
    if n > 0 && n % 10 == 0 {
        trim_zeros(n / 10, e + 1)
    } else {
        (n, e)
    }
}

/// A minus sign for negative numbers.
pub open spec fn sign_text(negative: bool) -> Seq<char> {
    if negative {
        seq!['-']
    } else {
        seq![]
    }
}

/// `n * 10^e` in positional notation, for `n` without trailing zeros.
pub open spec fn positional(n: nat, e: int) -> Seq<char> {
    if n == 0 {
        seq!['0']
    } else if e >= 0 {
        digits_of(n) + repeat('0', e as nat)
    } else {
        point_seq(digits_of(n), (-e) as nat)
    }
}

/// `a / p` rounded to the nearest integer, ties to the even one.
pub open spec fn round_half_even(a: nat, p: nat) -> nat
    recommends
        p > 0,
{
    let q = a / p;
    let r = a % p;
    if 2 * r > p || (2 * r == p && q % 2 == 1) {
        q + 1
    } else {
        q
    }
}

impl Decimal {
    /// The shortest positional text of the number: no exponent, no trailing
    /// fraction zeros, no decimal point for integers.
    pub open spec fn plain_text(self) -> Seq<char> {
        let t = trim_zeros(abs_int(self.mantissa as int), self.exponent as int);
        sign_text(self.mantissa < 0) + positional(t.0, t.1)
    }

    /// The magnitude times `10^prec`, rounded half to even.
    pub open spec fn scaled_magnitude(self, prec: nat) -> nat {
        let t = self.exponent + prec;
        if t >= 0 {
            abs_int(self.mantissa as int) * pow10(t as nat)
        } else {
            round_half_even(abs_int(self.mantissa as int), pow10((-t) as nat))
        }
    }

    /// The number rounded to exactly `prec` fraction digits.
    pub open spec fn fixed_text(self, prec: nat) -> Seq<char> {
        sign_text(self.mantissa < 0) + point_seq(digits_of(self.scaled_magnitude(prec)), prec)
    }

    /// The number has no fractional part.
    pub open spec fn spec_is_integral(self) -> bool {
        self.exponent >= 0 || abs_int(self.mantissa as int) % pow10((-self.exponent) as nat) == 0
    }

    /// An integral number in its plain text, any other rounded to `prec`
    /// fraction digits.
    pub open spec fn truncated_text(self, prec: nat) -> Seq<char> {
        if self.spec_is_integral() {
            self.plain_text()
        } else {
            self.fixed_text(prec)
        }
    }

    /// Appends the plain text of the number to `out`.
    pub fn push_plain(&self, out: &mut Vec<char>)
        ensures
            final(out)@ == old(out)@ + self.plain_text(),
    {
        let a0 = magnitude(self.mantissa);
        let (a, e) = trim(a0, self.exponent);
        if self.mantissa < 0 {
            out.push('-');
        }
        let ghost mid = out@;
        if a == 0 {
            out.push('0');
        } else if e >= 0 {
            let ds = digits(a);
            push_chars(out, &ds);
            push_repeat(out, '0', e as u32 as usize);
        } else {
            let ds = digits(a);
            push_point_seq(out, &ds, (-e) as u32 as usize);
        }
        assert(out@ =~= old(out)@ + self.plain_text());
    }

    /// The plain text of the number.
    pub fn to_plain_string(&self) -> (r: String)
        ensures
            r@ == self.plain_text(),
    {
        let mut out: Vec<char> = Vec::new();
        self.push_plain(&mut out);
        assert(out@ =~= self.plain_text());
        string_of(&out)
    }

    /// Appends the number rounded to `prec` fraction digits to `out`.
    pub fn push_fixed(&self, out: &mut Vec<char>, prec: u16)
        ensures
            final(out)@ == old(out)@ + self.fixed_text(prec as nat),
    {
        let a = magnitude(self.mantissa);
        let t: i64 = self.exponent as i64 + prec as i64;
        let ghost n = self.scaled_magnitude(prec as nat);
        let ds: Vec<char>;
        if a == 0 {
            proof {
                if t >= 0 {
                    assert(n == 0);
                } else {
                    lemma_pow10_positive((-t) as nat);
                    let p = pow10((-t) as nat);
                    assert(0nat / p == 0 && 0nat % p == 0) by (nonlinear_arith)
                        requires
                            p >= 1,
                    ;
                    assert(n == 0);
                }
            }
            ds = digits(0);
        } else if t >= 0 {
            let mut v = digits(a);
            push_repeat(&mut v, '0', t as u32 as usize);
            proof {
                lemma_digits_shift(a as nat, t as nat);
            }
            ds = v;
        } else if t <= -20 {
            proof {
                lemma_pow10_19();
                lemma_pow10_monotonic(20, (-t) as nat);
                let p = pow10((-t) as nat);
                assert(a as nat / p == 0) by (nonlinear_arith)
                    requires
                        a < p,
                ;
                assert(a as nat % p == a) by (nonlinear_arith)
                    requires
                        a < p,
                ;
                assert(n == 0);
            }
            ds = digits(0);
        } else {
            let p = pow10_u64((-t) as u32);
            proof {
                lemma_pow10_positive((-t) as nat);
            }
            let q = a / p;
            let r = a % p;
            proof {
                assert(q <= a) by (nonlinear_arith)
                    requires
                        p >= 1,
                        q == a / p,
                ;
                assert(p <= 10_000_000_000_000_000_000) by {
                    lemma_pow10_19();
                    lemma_pow10_monotonic((-t) as nat, 19);
                }
            }
            let up = r > p - r || (r == p - r && q % 2 == 1);
            let rounded = if up {
                proof {
                    assert(q < a || a == 0 || q + 1 <= 0xffff_ffff_ffff_ffff) by (nonlinear_arith)
                        requires
                            p >= 10,
                            q == a / p,
                    ;
                }
                q + 1
            } else {
                q
            };
            proof {
                lemma_pow10_monotonic(1, (-t) as nat);
                reveal_with_fuel(pow10, 2);
                assert(rounded == n);
            }
            ds = digits(rounded);
        }
        if self.mantissa < 0 {
            out.push('-');
        }
        push_point_seq(out, &ds, prec as usize);
        assert(out@ =~= old(out)@ + self.fixed_text(prec as nat));
    }

    /// The number rounded to `prec` fraction digits.
    pub fn to_fixed_string(&self, prec: u16) -> (r: String)
        ensures
            r@ == self.fixed_text(prec as nat),
    {
        let mut out: Vec<char> = Vec::new();
        self.push_fixed(&mut out, prec);
        assert(out@ =~= self.fixed_text(prec as nat));
        string_of(&out)
    }

    /// Whether the number has no fractional part.
    pub fn is_integral(&self) -> (r: bool)
        ensures
            r == self.spec_is_integral(),
    {
        if self.exponent >= 0 {
            true
        } else {
            let a = magnitude(self.mantissa);
            if self.exponent <= -20 {
                proof {
                    lemma_pow10_19();
                    lemma_pow10_monotonic(20, (-self.exponent) as nat);
                    let p = pow10((-self.exponent) as nat);
                    assert(a as nat % p == a) by (nonlinear_arith)
                        requires
                            a < p,
                    ;
                }
                a == 0
            } else {
                let p = pow10_u64((-self.exponent) as u32);
                proof {
                    lemma_pow10_positive((-self.exponent) as nat);
                }
                a % p == 0
            }
        }
    }

    /// Appends the truncated text of the number to `out`.
    pub fn push_truncated(&self, out: &mut Vec<char>, prec: u16)
        ensures
            final(out)@ == old(out)@ + self.truncated_text(prec as nat),
    {
        if self.is_integral() {
            self.push_plain(out);
        } else {
            self.push_fixed(out, prec);
        }
    }

    /// An integral number in its plain text, any other rounded to `prec`
    /// fraction digits.
    pub fn truncate_to_string(&self, prec: u16) -> (r: String)
        ensures
            r@ == self.truncated_text(prec as nat),
    {
        let mut out: Vec<char> = Vec::new();
        self.push_truncated(&mut out, prec);
        assert(out@ =~= self.truncated_text(prec as nat));
        string_of(&out)
    }
}

/// The magnitude of `m`.
fn magnitude(m: i64) -> (r: u64)
    ensures
        r == abs_int(m as int),
{
    if m < 0 {
        (-(m as i128)) as u64
    } else {
        m as u64
    }
}

/// `trim_zeros` on machine integers.
fn trim(a0: u64, e0: i16) -> (r: (u64, i64))
    ensures
        (r.0 as nat, r.1 as int) == trim_zeros(a0 as nat, e0 as int),
        e0 <= r.1 <= e0 + 20,
{
    let mut a = a0;
    let mut e: i64 = e0 as i64;
    let ghost mut i: nat = 0;
    assert(pow10(0) == 1);
    assert(a as nat * pow10(0) == a0) by (nonlinear_arith)
        requires
            pow10(0) == 1,
            a == a0,
    ;
    while a > 0 && a % 10 == 0
        invariant
            trim_zeros(a as nat, e as int) == trim_zeros(a0 as nat, e0 as int),
            e == e0 + i,
            a as nat * pow10(i) == a0,
            i <= 19,
        decreases a,
    {
        proof {
            lemma_pow10_19();
            if i + 1 > 19 {
                lemma_pow10_monotonic(20, i + 1);
                assert(a as nat * pow10(i) >= 10 * pow10(i)) by (nonlinear_arith)
                    requires
                        a >= 10,
                ;
                assert(a0 >= pow10(i + 1));
            }
            assert((a / 10) as nat * pow10(i + 1) == a0) by (nonlinear_arith)
                requires
                    a % 10 == 0,
                    pow10(i + 1) == 10 * pow10(i),
                    a as nat * pow10(i) == a0,
            ;
        }
        a = a / 10;
        e = e + 1;
        proof {
            i = i + 1;
        }
    }
    (a, e)
}

/// Appending zeros to the digits of a positive number multiplies it by ten.
pub proof fn lemma_digits_shift(a: nat, t: nat)
    requires
        a > 0,
    ensures
        digits_of(a * pow10(t)) == digits_of(a) + repeat('0', t),
    decreases t,
{
    if t == 0 {
        assert(pow10(0) == 1);
        assert(a * pow10(0) == a) by (nonlinear_arith)
            requires
                pow10(0) == 1,
        ;
        assert(digits_of(a) + repeat('0', 0) =~= digits_of(a));
    } else {
        lemma_digits_shift(a, (t - 1) as nat);
        lemma_pow10_positive((t - 1) as nat);
        let x = a * pow10((t - 1) as nat);
        assert(x >= 1) by (nonlinear_arith)
            requires
                a >= 1,
                pow10((t - 1) as nat) >= 1,
                x == a * pow10((t - 1) as nat),
        ;
        assert(a * pow10(t) == x * 10) by (nonlinear_arith)
            requires
                pow10(t) == 10 * pow10((t - 1) as nat),
                x == a * pow10((t - 1) as nat),
        ;
        assert((x * 10) / 10 == x);
        assert((x * 10) % 10 == 0);
        assert(digits_of(x * 10) == digits_of(x).push('0'));
        assert(digits_of(a) + repeat('0', t) =~= (digits_of(a) + repeat('0', (t - 1) as nat)).push(
            '0',
        ));
    }
}

} // verus!
