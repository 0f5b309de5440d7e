//! Exact fixed-point decimal quantities.
//!
//! A quantity is an integer count of 10^-9 units, so every value carries
//! exactly `SCALE` decimal digits after the point. Addition and negation are
//! exact; multiplication, division and precision rounding round half away
//! from zero at the fixed scale.

use vstd::prelude::*;

verus! {

/// Number of decimal digits kept after the point.
pub const SCALE: u32 = 9;

/// 10^SCALE: the number of stored units in one whole.
pub const UNIT: i128 = 1_000_000_000;

/// 10^n.
pub open spec fn pow10(n: nat) -> int
    decreases n,
{
    if n == 0 {
        1
    } else {
        10 * pow10((n - 1) as nat)
    }
}

/// Does an integer fit in the machine representation of a quantity?
pub open spec fn fits_i128(x: int) -> bool {
    i128::MIN <= x <= i128::MAX
}

/// Rounding division by a positive divisor: nearest multiple, ties away
/// from zero.
pub open spec fn div_away(n: int, d: int) -> int
    recommends
        d > 0,
{
    if n >= 0 {
        (n + d / 2) / d
    } else {
        -((-n + d / 2) / d)
    }
}

pub proof fn lemma_pow10_positive(n: nat)
    ensures
        pow10(n) >= 1,
    decreases n,
{
    if n > 0 {
        lemma_pow10_positive((n - 1) as nat);
    }
}

/// An exact decimal quantity: `units` counts 10^-9ths.
#[derive(Clone, Copy, Debug, PartialEq, Eq, Structural)]
pub struct Decimal {
    pub units: i128,
}

impl View for Decimal {
    type V = int;

    open spec fn view(&self) -> int {
        self.units as int
    }
}

impl Decimal {
    /// The zero quantity.
    pub fn zero() -> (r: Decimal)
        ensures
            r@ == 0,
    {
        Decimal { units: 0 }
    }

    /// A quantity from a raw count of 10^-9 units.
    pub fn from_units(units: i128) -> (r: Decimal)
        ensures
            r@ == units,
    {
        Decimal { units }
    }

    /// A quantity written as `mantissa * 10^-scale`, exact for any scale up
    /// to `SCALE`.
    pub fn new(mantissa: i64, scale: u32) -> (r: Decimal)
        requires
            scale <= SCALE,
        ensures
            r@ == mantissa * pow10((SCALE - scale) as nat),
    {
        let factor = pow10_exec(SCALE - scale);
        proof {
            lemma_pow10_le_unit((SCALE - scale) as nat);
            let m = mantissa as int;
            let f = factor as int;
            assert(i128::MIN <= m * f <= i128::MAX) by (nonlinear_arith)
                requires
                    -0x8000_0000_0000_0000 <= m <= 0x7fff_ffff_ffff_ffff,
                    1 <= f <= 0x3b9a_ca00,
            ;
        }
        Decimal { units: (mantissa as i128) * factor }
    }

    /// Is the quantity exactly zero?
    pub fn is_zero(&self) -> (r: bool)
        ensures
            r == (self@ == 0),
    {
        self.units == 0
    }

    /// Exact sum.
    pub fn add(&self, other: &Decimal) -> (r: Decimal)
        requires
            fits_i128(self@ + other@),
        ensures
            r@ == self@ + other@,
    {
        Decimal { units: self.units + other.units }
    }

    /// Exact negation.
    pub fn neg(&self) -> (r: Decimal)
        requires
            fits_i128(-self@),
        ensures
            r@ == -self@,
    {
        Decimal { units: -self.units }
    }

    /// Product of two quantities at the fixed scale, rounded half away
    /// from zero.
    pub fn mul(&self, other: &Decimal) -> (r: Decimal)
        requires
            fits_i128(self@ * other@ + UNIT),
            fits_i128(-(self@ * other@) + UNIT),
        ensures
            r@ == div_away(self@ * other@, UNIT as int),
    {
        let p = self.units * other.units;
        Decimal { units: div_away_exec(p, UNIT) }
    }

    /// Quotient of two quantities at the fixed scale, rounded half away
    /// from zero.
    pub fn div(&self, other: &Decimal) -> (r: Decimal)
        requires
            other@ != 0,
            -i128::MAX <= other@,
            -i128::MAX <= self@ * UNIT <= i128::MAX,
        ensures
            r@ == dec_div_spec(self@, other@),
    {
        let num = self.units * UNIT;
        if other.units > 0 {
            Decimal { units: div_away_exec(num, other.units) }
        } else {
            Decimal { units: div_away_exec(-num, -other.units) }
        }
    }

    /// The quantity rounded to `dp` digits after the point, half away from
    /// zero; a precision at or above the fixed scale leaves it unchanged.
    pub fn round_dp(&self, dp: u32) -> (r: Decimal)
        requires
            fits_i128(self@ + UNIT),
            fits_i128(-self@ + UNIT),
        ensures
            r@ == round_dp_spec(self@, dp),
    {
        if dp >= SCALE {
            *self
        } else {
            let d = pow10_exec(SCALE - dp);
            proof {
                lemma_pow10_le_unit((SCALE - dp) as nat);
            }
            let q = div_away_exec(self.units, d);
            proof {
                lemma_div_away_scaled_close(self.units as int, d as int);
            }
            Decimal { units: q * d }
        }
    }
}

/// Division of quantity values at the fixed scale: the numerator is
/// rescaled so the quotient is again a count of 10^-9 units, and the
/// result is rounded half away from zero.
pub open spec fn dec_div_spec(a: int, b: int) -> int
    recommends
        b != 0,
{
    if b > 0 {
        div_away(a * UNIT, b)
    } else {
        div_away(-(a * UNIT), -b)
    }
}

/// The quantity value rounded to `dp` digits after the point, half away
/// from zero.
pub open spec fn round_dp_spec(a: int, dp: u32) -> int {
    if dp >= SCALE {
        a
    } else {
        div_away(a, pow10((SCALE - dp) as nat)) * pow10((SCALE - dp) as nat)
    }
}

/// Rounding to a multiple of `d` moves a value by at most `d`.
proof fn lemma_div_away_scaled_close(n: int, d: int)
    requires
        d > 0,
    ensures
        n - d <= div_away(n, d) * d <= n + d,
{
    if n >= 0 {
        let q = (n + d / 2) / d;
        vstd::arithmetic::div_mod::lemma_fundamental_div_mod(n + d / 2, d);
        assert(q * d == d * q) by (nonlinear_arith);
    } else {
        let q = (-n + d / 2) / d;
        vstd::arithmetic::div_mod::lemma_fundamental_div_mod(-n + d / 2, d);
        assert((-q) * d == -(d * q)) by (nonlinear_arith);
    }
}

/// Rounding division by a positive divisor, ties away from zero.
pub fn div_away_exec(n: i128, d: i128) -> (r: i128)
    requires
        d > 0,
        -i128::MAX <= n,
    ensures
        r == div_away(n as int, d as int),
{
    let du = d as u128;
    let half = du / 2;
    if n >= 0 {
        let q = ((n as u128) + half) / du;
        proof {
            lemma_round_quotient_fits(n as int, d as int);
        }
        q as i128
    } else {
        let q = (((-n) as u128) + half) / du;
        proof {
            lemma_round_quotient_fits(-n as int, d as int);
        }
        -(q as i128)
    }
}

/// The rounded quotient of an in-range numerator stays in range.
proof fn lemma_round_quotient_fits(n: int, d: int)
    requires
        0 <= n <= i128::MAX,
        0 < d <= i128::MAX,
    ensures
        0 <= (n + d / 2) / d <= i128::MAX,
{
    vstd::arithmetic::div_mod::lemma_div_pos_is_pos(n + d / 2, d);
    if d == 1 {
        assert((n + d / 2) / d == n);
    } else {
        let s = n + d / 2;
        vstd::arithmetic::div_mod::lemma_div_is_ordered_by_denominator(s, 2, d);
        assert(s <= i128::MAX + i128::MAX / 2);
        vstd::arithmetic::div_mod::lemma_div_is_ordered(s, i128::MAX + i128::MAX / 2, 2);
        assert((i128::MAX + i128::MAX / 2) / 2 <= i128::MAX);
    }
}

/// 10^n as a machine integer; defined for every exponent a quantity's scale
/// can call for.
pub fn pow10_exec(n: u32) -> (r: i128)
    requires
        n <= SCALE,
    ensures
        r == pow10(n as nat),
        1 <= r <= UNIT,
    decreases n,
{
    proof {
        lemma_pow10_positive(n as nat);
        lemma_pow10_le_unit(n as nat);
    }
    if n == 0 {
        1
    } else {
        let prev = pow10_exec(n - 1);
        10 * prev
    }
}

/// 10^n grows with n.
pub proof fn lemma_pow10_mono(a: nat, b: nat)
    requires
        a <= b,
    ensures
        pow10(a) <= pow10(b),
    decreases b,
{
    lemma_pow10_positive(a);
    if a < b {
        lemma_pow10_mono(a, (b - 1) as nat);
        lemma_pow10_positive((b - 1) as nat);
    }
}

/// 10^n is at most UNIT for exponents up to SCALE.
pub proof fn lemma_pow10_le_unit(n: nat)
    requires
        n <= 9,
    ensures
        pow10(n) <= UNIT,
{
    lemma_pow10_mono(n, 9);
    reveal_with_fuel(pow10, 11);
    assert(pow10(9) == UNIT);
}

} // verus!
