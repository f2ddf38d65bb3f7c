//! Fixed-point amounts with eighteen decimal places.
use vstd::prelude::*;
use vstd::arithmetic::div_mod::{lemma_fundamental_div_mod, lemma_fundamental_div_mod_converse};

verus! {

/// Attos in one whole unit.
pub const ATTOS_PER_UNIT: u128 = 1_000_000_000_000_000_000;

/// Attos in one whole unit, as a mathematical integer.
pub open spec fn one() -> int {
    1_000_000_000_000_000_000
}

/// Ten to the power `n`.
pub open spec fn pow10(n: nat) -> nat
    decreases n,
{
    if n == 0 {
        1
    } else {
        10 * pow10((n - 1) as nat)
    }
}

/// The product of two amounts, truncated to eighteen decimal places.
pub open spec fn mul_spec(a: int, b: int) -> int {
    (a * b) / one()
}

/// The quotient of two amounts, truncated to eighteen decimal places.
pub open spec fn div_spec(a: int, b: int) -> int {
    (a * one()) / b
}

/// A whole number of units, at most `n` of them.
pub proof fn lemma_whole_units(a: int, n: int)
    requires
        0 <= a <= n * one(),
        a % one() == 0,
    ensures
        a / one() <= n,
        (a / one()) * one() == a,
{
    lemma_fundamental_div_mod(a, one());
    let q = a / one();
    assert(q <= n) by (nonlinear_arith)
        requires
            q * 1_000_000_000_000_000_000 <= n * 1_000_000_000_000_000_000,
    ;
}

/// An amount of a resource, counted in attos (units of 10^-18).
#[derive(Clone, Copy, Debug, PartialEq, Eq, Structural)]
pub struct Decimal {
    pub attos: i128,
}

impl View for Decimal {
    type V = int;

    open spec fn view(&self) -> int {
        self.attos as int
    }
}

impl Decimal {
    /// The amount zero.
    pub fn zero() -> (r: Decimal)
        ensures
            r@ == 0,
    {
        Decimal { attos: 0 }
    }

    /// The amount of `n` whole units.
    pub fn from_u64(n: u64) -> (r: Decimal)
        ensures
            r@ == n * one(),
    {
        assert(n * one() <= u64::MAX * one()) by (nonlinear_arith)
            requires
                n <= u64::MAX,
        ;
        Decimal { attos: (n as i128) * (ATTOS_PER_UNIT as i128) }
    }

    pub fn is_zero(&self) -> (r: bool)
        ensures
            r == (self@ == 0),
    {
        self.attos == 0
    }

    pub fn is_negative(&self) -> (r: bool)
        ensures
            r == (self@ < 0),
    {
        self.attos < 0
    }

    /// Whether `self` is at most `other`.
    pub fn le(&self, other: &Decimal) -> (r: bool)
        ensures
            r == (self@ <= other@),
    {
        self.attos <= other.attos
    }

    /// The smaller of two amounts.
    pub fn min(self, other: Decimal) -> (r: Decimal)
        ensures
            r@ == if self@ <= other@ {
                self@
            } else {
                other@
            },
    {
        if self.attos <= other.attos {
            self
        } else {
            other
        }
    }

    /// The sum, or `None` where it leaves the representable range.
    pub fn checked_add(self, other: Decimal) -> (r: Option<Decimal>)
        ensures
            r is Some <==> i128::MIN <= self@ + other@ <= i128::MAX,
            r matches Some(d) ==> d@ == self@ + other@,
    {
        match self.attos.checked_add(other.attos) {
            Some(a) => Some(Decimal { attos: a }),
            None => None,
        }
    }

    /// The difference, or `None` where it leaves the representable range.
    pub fn checked_sub(self, other: Decimal) -> (r: Option<Decimal>)
        ensures
            r is Some <==> i128::MIN <= self@ - other@ <= i128::MAX,
            r matches Some(d) ==> d@ == self@ - other@,
    {
        match self.attos.checked_sub(other.attos) {
            Some(a) => Some(Decimal { attos: a }),
            None => None,
        }
    }

    /// The number of whole units, where `self` is a whole, non-negative
    /// number that fits in a `u64`.
    pub fn to_whole_u64(&self) -> (r: Option<u64>)
        ensures
            r is Some <==> (self@ >= 0 && self@ % one() == 0 && self@ / one() <= u64::MAX),
            r matches Some(n) ==> n * one() == self@,
    {
        if self.attos < 0 {
            return None;
        }
        let a = self.attos as u128;
        if a % ATTOS_PER_UNIT != 0 {
            return None;
        }
        let n = a / ATTOS_PER_UNIT;
        if n > u64::MAX as u128 {
            return None;
        }
        proof {
            lemma_fundamental_div_mod_converse(a as int, one(), n as int, 0);
        }
        Some(n as u64)
    }

    /// The product, truncated to eighteen decimal places, of two
    /// non-negative amounts; `None` where it exceeds the representable range.
    pub fn checked_mul(self, other: Decimal) -> (r: Option<Decimal>)
        requires
            self@ >= 0,
            other@ >= 0,
        ensures
            r is Some <==> mul_spec(self@, other@) <= i128::MAX,
            r matches Some(d) ==> d@ == mul_spec(self@, other@),
    {
        let a = self.attos as u128;
        let b = other.attos as u128;
        let s = ATTOS_PER_UNIT;
        let a1 = a / s;
        let a0 = a % s;
        let b1 = b / s;
        let b0 = b % s;
        assert(a1 * b0 <= 170141183460469231731 * 999_999_999_999_999_999) by (nonlinear_arith)
            requires
                a1 <= 170141183460469231731,
                b0 <= 999_999_999_999_999_999,
        ;
        assert(a0 * b1 <= 999_999_999_999_999_999 * 170141183460469231731) by (nonlinear_arith)
            requires
                b1 <= 170141183460469231731,
                a0 <= 999_999_999_999_999_999,
        ;
        assert(a0 * b0 <= 999_999_999_999_999_999 * 999_999_999_999_999_999) by (nonlinear_arith)
            requires
                a0 <= 999_999_999_999_999_999,
                b0 <= 999_999_999_999_999_999,
        ;
        let cross = a1 * b0 + a0 * b1;
        let low_prod = a0 * b0;
        let low = low_prod / s;
        let ghost x: int = a1 * b1 * s + cross;
        proof {
            assert(a as int * b as int == (a1 * b1 * s + cross) * s + low_prod) by (nonlinear_arith)
                requires
                    a == a1 * s + a0,
                    b == b1 * s + b0,
                    cross == a1 * b0 + a0 * b1,
                    low_prod == a0 * b0,
            ;
            lemma_fundamental_div_mod_converse(
                a as int * b as int,
                one(),
                x + low as int,
                (low_prod % s) as int,
            );
            assert(a1 * b1 * s >= 0) by (nonlinear_arith)
                requires
                    a1 >= 0,
                    b1 >= 0,
                    s > 0,
            ;
        }
        let hh = match a1.checked_mul(b1) {
            Some(v) => v,
            None => {
                assert(a1 * b1 * s >= a1 * b1) by (nonlinear_arith)
                    requires
                        a1 * b1 >= 0,
                        s >= 1,
                ;
                return None;
            },
        };
        let high = match hh.checked_mul(s) {
            Some(v) => v,
            None => {
                return None;
            },
        };
        let t = match high.checked_add(cross) {
            Some(v) => v,
            None => {
                return None;
            },
        };
        let total = match t.checked_add(low) {
            Some(v) => v,
            None => {
                return None;
            },
        };
        if total > i128::MAX as u128 {
            None
        } else {
            Some(Decimal { attos: total as i128 })
        }
    }

    /// The quotient, truncated to eighteen decimal places, of a
    /// non-negative amount by a positive one; `None` where it exceeds the
    /// representable range.
    pub fn checked_div(self, other: Decimal) -> (r: Option<Decimal>)
        requires
            self@ >= 0,
            other@ > 0,
        ensures
            r is Some <==> div_spec(self@, other@) <= i128::MAX,
            r matches Some(d) ==> d@ == div_spec(self@, other@),
    {
        let a = self.attos as u128;
        let b = other.attos as u128;
        let s = ATTOS_PER_UNIT;
        let q0 = a / b;
        let r0 = a % b;
        let frac = fraction_digits(r0, b);
        proof {
            lemma_fundamental_div_mod(a as int, b as int);
            reveal_with_fuel(pow10, 19);
            assert((a as int) * one() == (q0 * s + frac) * b + (r0 * one() - frac * b))
                by (nonlinear_arith)
                requires
                    a == q0 * b + r0,
                    s == one(),
            ;
            lemma_fundamental_div_mod_converse(
                (a as int) * one(),
                b as int,
                q0 * s + frac,
                r0 * one() - frac * b,
            );
        }
        let cap = (i128::MAX as u128) / s;
        if q0 > cap {
            assert(q0 * s >= (cap + 1) * s) by (nonlinear_arith)
                requires
                    q0 >= cap + 1,
                    s > 0,
            ;
            assert(frac * b >= 0) by (nonlinear_arith)
                requires
                    frac >= 0,
                    b >= 0,
            ;
            return None;
        }
        assert(q0 * s <= cap * s) by (nonlinear_arith)
            requires
                q0 <= cap,
                s > 0,
        ;
        let total = q0 * s + frac;
        if total > i128::MAX as u128 {
            None
        } else {
            Some(Decimal { attos: total as i128 })
        }
    }
}

/// The eighteen decimal digits of `r / b`, that is `(r * 10^18) / b`, for
/// `r < b`. Each digit comes from a remainder below `b`, so nothing beyond
/// `2 * b` is ever formed.
fn fraction_digits(r: u128, b: u128) -> (q: u128)
    requires
        r < b,
        b <= i128::MAX,
    ensures
        q < one(),
        q * b <= r * one(),
        r * one() - q * b < b,
{
    let mut q: u128 = 0;
    let mut rem: u128 = r;
    let mut i: u32 = 0;
    while i < 18
        invariant
            i <= 18,
            rem < b,
            b <= i128::MAX,
            q < pow10(i as nat),
            q * b + rem == r * pow10(i as nat),
        decreases 18 - i,
    {
        proof {
            reveal_with_fuel(pow10, 19);
            assert(pow10(i as nat) <= pow10(18)) by {
                lemma_pow10_monotone(i as nat, 18);
            }
        }
        let (d, next) = times_ten(rem, b);
        assert(q * 10 + d < pow10((i + 1) as nat)) by (nonlinear_arith)
            requires
                q < pow10(i as nat),
                d < 10,
                pow10((i + 1) as nat) == 10 * pow10(i as nat),
        ;
        assert((q * 10 + d) * b + next == r * pow10((i + 1) as nat)) by (nonlinear_arith)
            requires
                q * b + rem == r * pow10(i as nat),
                d * b + next == 10 * rem,
                pow10((i + 1) as nat) == 10 * pow10(i as nat),
        ;
        q = q * 10 + d;
        rem = next;
        i = i + 1;
    }
    proof {
        reveal_with_fuel(pow10, 19);
    }
    q
}

proof fn lemma_pow10_monotone(i: nat, j: nat)
    requires
        i <= j,
    ensures
        pow10(i) <= pow10(j),
    decreases j - i,
{
    if i < j {
        lemma_pow10_monotone(i, (j - 1) as nat);
    }
}

/// `(10 * rem) / b` and `(10 * rem) % b` for `rem < b`, by ten additions
/// that each stay below `2 * b`.
fn times_ten(rem: u128, b: u128) -> (res: (u128, u128))
    requires
        rem < b,
        b <= i128::MAX,
    ensures
        res.0 < 10,
        res.1 < b,
        res.0 * b + res.1 == 10 * rem,
{
    let mut d: u128 = 0;
    let mut acc: u128 = 0;
    let mut k: u32 = 0;
    while k < 10
        invariant
            k <= 10,
            rem < b,
            b <= i128::MAX,
            acc < b,
            d <= k,
            d * b + acc == k * rem,
        decreases 10 - k,
    {
        assert((k + 1) * rem == k * rem + rem) by (nonlinear_arith);
        acc = acc + rem;
        if acc >= b {
            assert((d + 1) * b == d * b + b) by (nonlinear_arith);
            acc = acc - b;
            d = d + 1;
        }
        k = k + 1;
    }
    assert(d < 10) by (nonlinear_arith)
        requires
            d * b + acc == 10 * rem,
            rem < b,
            acc >= 0,
    ;
    (d, acc)
}

} // verus!
