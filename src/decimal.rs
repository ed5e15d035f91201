//! Exact decimal numbers: the sample values and threshold bounds that
//! checks compare, and their textual renderings.

use vstd::prelude::*;

verus! {

/// `10` to the power `n`.
pub open spec fn pow10(n: nat) -> nat
    decreases n,
{
    if n == 0 {
        1
    } else {
        10 * pow10((n - 1) as nat)
    }
}

pub open spec fn min_int(a: int, b: int) -> int {
    if a <= b {
        a
    } else {
        b
    }
}

pub open spec fn abs_int(a: int) -> nat {
    if a < 0 {
        (-a) as nat
    } else {
        a as nat
    }
}

pub proof fn lemma_pow10_positive(n: nat)
    ensures
        pow10(n) >= 1,
    decreases n,
{
    if n > 0 {
        lemma_pow10_positive((n - 1) as nat);
    }
}

pub proof fn lemma_pow10_monotonic(a: nat, b: nat)
    requires
        a <= b,
    ensures
        pow10(a) <= pow10(b),
    decreases b,
{
    if a < b {
        lemma_pow10_monotonic(a, (b - 1) as nat);
        lemma_pow10_positive((b - 1) as nat);
    }
}

pub proof fn lemma_pow10_19()
    ensures
        pow10(18) == 1_000_000_000_000_000_000,
        pow10(19) == 10_000_000_000_000_000_000,
        pow10(20) == 100_000_000_000_000_000_000,
{
    reveal_with_fuel(pow10, 21);
}

/// An exact decimal number `mantissa * 10^exponent`. `==` compares the
/// representation; `le` and `lt` compare the numbers.
#[derive(Clone, Copy, Debug, PartialEq, Eq, Structural)]
pub struct Decimal {
    pub mantissa: i64,
    pub exponent: i16,
}

impl Decimal {
    /// The integer `n` with `self == n * 10^k`, for `k <= self.exponent`.
    pub open spec fn at_exp(self, k: int) -> int {
        self.mantissa as int * pow10((self.exponent - k) as nat)
    }

    /// The common exponent at which two decimals are compared.
    pub open spec fn common_exp(self, other: Decimal) -> int {
        min_int(self.exponent as int, other.exponent as int)
    }

    /// `self <= other` as numbers.
    pub open spec fn spec_le(self, other: Decimal) -> bool {
        self.at_exp(self.common_exp(other)) <= other.at_exp(self.common_exp(other))
    }

    /// `self < other` as numbers.
    pub open spec fn spec_lt(self, other: Decimal) -> bool {
        self.at_exp(self.common_exp(other)) < other.at_exp(self.common_exp(other))
    }

    /// `self == other` as numbers.
    pub open spec fn same_value(self, other: Decimal) -> bool {
        self.at_exp(self.common_exp(other)) == other.at_exp(self.common_exp(other))
    }

    /// The number `mantissa * 10^exponent`.
    pub fn new(mantissa: i64, exponent: i16) -> (r: Decimal)
        ensures
            r.mantissa == mantissa,
            r.exponent == exponent,
    {
        Decimal { mantissa, exponent }
    }

    /// Both numbers as integers at a common exponent, with a magnitude
    /// that cannot be reached clamped so that their order is kept.
    fn aligned(&self, other: &Decimal) -> (r: (i128, i128))
        ensures
            (r.0 <= r.1) == self.spec_le(*other),
            (r.0 < r.1) == self.spec_lt(*other),
            (r.0 == r.1) == self.same_value(*other),
    {
        if self.exponent >= other.exponent {
            let d = (self.exponent as i64 - other.exponent as i64) as u64;
            let (a, b) = aligned_to(self.mantissa, other.mantissa, d);
            proof {
                let k = self.common_exp(*other);
                assert(k == other.exponent);
                assert((other.exponent - k) as nat == 0);
                assert(pow10(0) == 1);
                assert(other.at_exp(k) == other.mantissa as int);
                assert(self.at_exp(k) == self.mantissa as int * pow10(d as nat));
            }
            (a, b)
        } else {
            let d = (other.exponent as i64 - self.exponent as i64) as u64;
            let (b, a) = aligned_to(other.mantissa, self.mantissa, d);
            proof {
                let k = self.common_exp(*other);
                assert(k == self.exponent);
                assert((self.exponent - k) as nat == 0);
                assert(pow10(0) == 1);
                assert(self.at_exp(k) == self.mantissa as int);
                assert(other.at_exp(k) == other.mantissa as int * pow10(d as nat));
            }
            (a, b)
        }
    }

    /// `self <= other` as numbers.
    pub fn le(&self, other: &Decimal) -> (r: bool)
        ensures
            r == self.spec_le(*other),
    {
        let (a, b) = self.aligned(other);
        a <= b
    }

    /// `self < other` as numbers.
    pub fn lt(&self, other: &Decimal) -> (r: bool)
        ensures
            r == self.spec_lt(*other),
    {
        let (a, b) = self.aligned(other);
        a < b
    }
}

/// `10^n` for small `n`.
pub fn pow10_u64(n: u32) -> (r: u64)
    requires
        n <= 19,
    ensures
        r == pow10(n as nat),
{
    let mut r: u64 = 1;
    let mut i: u32 = 0;
    while i < n
        invariant
            i <= n <= 19,
            r == pow10(i as nat),
        decreases n - i,
    {
        proof {
            lemma_pow10_19();
            lemma_pow10_monotonic((i + 1) as nat, 19);
        }
        r = r * 10;
        i = i + 1;
    }
    r
}

/// `(a * 10^d, b)`, with the first clamped to `+-10^19` when it is out of
/// reach of any `i64`, which keeps its order with respect to `b`.
fn aligned_to(a: i64, b: i64, d: u64) -> (r: (i128, i128))
    ensures
        (r.0 <= r.1) == (a as int * pow10(d as nat) <= b as int),
        (r.0 < r.1) == (a as int * pow10(d as nat) < b as int),
        (r.0 == r.1) == (a as int * pow10(d as nat) == b as int),
{
    proof {
        lemma_pow10_19();
    }
    if d <= 18 {
        let p = pow10_u64(d as u32);
        proof {
            lemma_pow10_monotonic(d as nat, 18);
            assert(-0x8000_0000_0000_0000 * 1_000_000_000_000_000_000 <= a as int * p as int
                <= 0x7fff_ffff_ffff_ffff * 1_000_000_000_000_000_000) by (nonlinear_arith)
                requires
                    -0x8000_0000_0000_0000 <= a <= 0x7fff_ffff_ffff_ffff,
                    0 <= p <= 1_000_000_000_000_000_000,
            ;
        }
        ((a as i128) * (p as i128), b as i128)
    } else {
        let big: i128 = 10_000_000_000_000_000_000;
        proof {
            lemma_pow10_monotonic(19, d as nat);
            let p = pow10(d as nat);
            if a > 0 {
                assert(a as int * p >= p) by (nonlinear_arith)
                    requires
                        a > 0,
                        p >= 0,
                ;
            } else if a < 0 {
                assert(a as int * p <= -p) by (nonlinear_arith)
                    requires
                        a < 0,
                        p >= 0,
                ;
            }
        }
        if a > 0 {
            (big, b as i128)
        } else if a < 0 {
            (-big, b as i128)
        } else {
            (0, b as i128)
        }
    }
}

} // verus!
