//! From a noise value to a gray level.
//!
//! A noise value is an exact fraction. Its gray level is taken from its
//! fractional part alone: the part is scaled to 255, rounded up to a whole
//! number, and the lowest eight bits of that number are the level. The
//! fractional part keeps the value's sign, so values below zero reach the
//! upper gray levels from the other side: the level wraps, it does not
//! stop at 0.

use vstd::prelude::*;
use vstd::arithmetic::div_mod::{lemma_fundamental_div_mod, lemma_fundamental_div_mod_converse,
    lemma_mod_bound, lemma_small_mod};

verus! {

/// The largest denominator of a noise value.
pub const MAX_DENOM: i128 = 0x10_0000_0000_0000_0000_0000_0000_0000;

/// The brightest gray level.
pub const WHITE: u8 = 255;

/// What a noise value stands for: the fraction `numer / denom`.
pub ghost struct Ratio {
    pub numer: int,
    pub denom: int,
}

/// The fractional part of `numer / denom` as a numerator over `denom`. It
/// has the sign of `numer`: the value is rounded towards zero, and the
/// part is what is left.
pub open spec fn fraction(numer: int, denom: int) -> int {
    if numer >= 0 {
        numer % denom
    } else {
        -((-numer) % denom)
    }
}

/// `a / d` rounded up to a whole number, for a positive `d`.
pub open spec fn ceil_div(a: int, d: int) -> int {
    -((-a) / d)
}

/// The lowest eight bits of `c` in two's complement, as a number from 0 to
/// 255.
pub open spec fn low_byte(c: int) -> int {
    c % 256
}

/// The gray level of the noise value `numer / denom`.
pub open spec fn intensity(numer: int, denom: int) -> int {
    low_byte(ceil_div(WHITE * fraction(numer, denom), denom))
}

/// Rounding up a quotient of natural numbers: add the divisor less one,
/// then round down.
pub proof fn lemma_ceil_div(a: int, d: int)
    requires
        0 <= a,
        0 < d,
    ensures
        ceil_div(a, d) == (a + d - 1) / d,
        ceil_div(-a, d) == -(a / d),
        (ceil_div(a, d) - 1) * d < a <= ceil_div(a, d) * d,
{
    let t = a + d - 1;
    let q = t / d;
    let r = t % d;
    lemma_fundamental_div_mod(t, d);
    lemma_mod_bound(t, d);
    assert(-a == (-q) * d + (d - 1 - r)) by (nonlinear_arith)
        requires
            a + d - 1 == d * q + r,
    ;
    lemma_fundamental_div_mod_converse(-a, d, -q, d - 1 - r);
    assert((q - 1) * d < a <= q * d) by (nonlinear_arith)
        requires
            a + d - 1 == d * q + r,
            0 <= r < d,
    ;
}

/// A noise value: an exact fraction with a positive denominator of at most
/// `MAX_DENOM`.
#[derive(Clone, Copy, Debug)]
pub struct NoiseValue {
    numer: i128,
    denom: i128,
}

impl View for NoiseValue {
    type V = Ratio;

    closed spec fn view(&self) -> Ratio {
        Ratio { numer: self.numer as int, denom: self.denom as int }
    }
}

impl NoiseValue {
    #[verifier::type_invariant]
    spec fn bounded_denominator(self) -> bool {
        0 < self.denom <= MAX_DENOM
    }

    /// The value `numer / denom`. There is none for a denominator that is
    /// not positive or is above `MAX_DENOM`.
    pub fn new(numer: i128, denom: i128) -> (value: Option<NoiseValue>)
        ensures
            value.is_some() <==> 0 < denom <= MAX_DENOM,
            value matches Some(v) ==> v@ == (Ratio { numer: numer as int, denom: denom as int }),
    {
        if 0 < denom && denom <= MAX_DENOM {
            Some(NoiseValue { numer, denom })
        } else {
            None
        }
    }

    /// The numerator.
    pub fn numer(&self) -> (n: i128)
        ensures
            n == self@.numer,
    {
        self.numer
    }

    /// The denominator.
    pub fn denom(&self) -> (d: i128)
        ensures
            d == self@.denom,
            0 < d <= MAX_DENOM,
    {
        proof {
            use_type_invariant(self);
        }
        self.denom
    }
}

/// The gray level of a noise value.
pub fn noise_val_to_u8(value: &NoiseValue) -> (shade: u8)
    ensures
        shade == intensity(value@.numer, value@.denom),
{
    let numer: i128 = value.numer();
    let denom: u128 = value.denom() as u128;
    proof {
        lemma_intensity_of_fraction(numer as int, denom as int);
    }
    if numer >= 0 {
        let part: u128 = numer as u128 % denom;
        proof {
            lemma_intensity_below_one(part as int, denom as int);
        }
        let scaled: u128 = WHITE as u128 * part;
        let level: u128 = (scaled + denom - 1) / denom;
        level as u8
    } else {
        let size: u128 = (-(numer + 1)) as u128 + 1;
        let part: u128 = size % denom;
        proof {
            if part > 0 {
                lemma_intensity_above_minus_one(-(part as int), denom as int);
            } else {
                lemma_intensity_of_whole(0, denom as int);
            }
        }
        let scaled: u128 = WHITE as u128 * part;
        let level: u128 = scaled / denom;
        if level == 0 {
            0
        } else {
            (256 - level) as u8
        }
    }
}

/// The gray level of a value is the gray level of its fractional part, which
/// lies between -1 and 1 and has the value's sign.
pub proof fn lemma_intensity_of_fraction(numer: int, denom: int)
    requires
        0 < denom,
    ensures
        intensity(numer, denom) == intensity(fraction(numer, denom), denom),
        numer >= 0 ==> 0 <= fraction(numer, denom) < denom,
        numer < 0 ==> -denom < fraction(numer, denom) <= 0,
{
    if numer >= 0 {
        lemma_mod_bound(numer, denom);
        lemma_small_mod((numer % denom) as nat, denom as nat);
    } else {
        lemma_mod_bound(-numer, denom);
        lemma_small_mod(((-numer) % denom) as nat, denom as nat);
    }
}

/// The gray level of a value from 0 up to, but without, 1 is 255 times the
/// value, rounded up. No such level is cut short by the eight bits.
pub proof fn lemma_intensity_below_one(numer: int, denom: int)
    requires
        0 <= numer < denom,
    ensures
        intensity(numer, denom) == ceil_div(WHITE * numer, denom),
        intensity(numer, denom) == (WHITE * numer + denom - 1) / denom,
        0 <= intensity(numer, denom) <= WHITE,
        (intensity(numer, denom) - 1) * denom < WHITE * numer <= intensity(numer, denom) * denom,
{
    let scaled = WHITE * numer;
    lemma_small_mod(numer as nat, denom as nat);
    lemma_ceil_div(scaled, denom);
    let level = ceil_div(scaled, denom);
    assert(0 <= level <= 255) by (nonlinear_arith)
        requires
            (level - 1) * denom < scaled <= level * denom,
            scaled == 255 * numer,
            0 <= numer < denom,
    ;
    lemma_small_mod(level as nat, 256);
}

/// The gray level of a value between -1 and 0 is what 256 less 255 times
/// the value's size, rounded down, has in its lowest eight bits: 0 for the
/// values nearest to 0, then from 255 downwards.
pub proof fn lemma_intensity_above_minus_one(numer: int, denom: int)
    requires
        -denom < numer < 0,
    ensures
        intensity(numer, denom) == low_byte(256 - (WHITE * (-numer)) / denom),
        (WHITE * (-numer)) / denom == 0 ==> intensity(numer, denom) == 0,
        (WHITE * (-numer)) / denom > 0 ==> intensity(numer, denom) == 256 - (WHITE * (-numer))
            / denom,
{
    let size = -numer;
    let scaled = WHITE * size;
    let level = scaled / denom;
    lemma_small_mod(size as nat, denom as nat);
    lemma_ceil_div(scaled, denom);
    lemma_fundamental_div_mod(scaled, denom);
    lemma_mod_bound(scaled, denom);
    assert(0 <= level < 255) by (nonlinear_arith)
        requires
            scaled == denom * level + scaled % denom,
            0 <= scaled % denom < denom,
            scaled == 255 * size,
            0 < size < denom,
    ;
    assert(WHITE * fraction(numer, denom) == -scaled);
    if level > 0 {
        lemma_fundamental_div_mod_converse(-level, 256, -1, 256 - level);
        lemma_small_mod((256 - level) as nat, 256);
    } else {
        lemma_fundamental_div_mod_converse(256, 256, 1, 0);
    }
}

/// A whole number has gray level 0.
pub proof fn lemma_intensity_of_whole(whole: int, denom: int)
    requires
        0 < denom,
    ensures
        intensity(whole * denom, denom) == 0,
{
    let numer = whole * denom;
    if numer >= 0 {
        lemma_fundamental_div_mod_converse(numer, denom, whole, 0);
    } else {
        assert(-numer == (-whole) * denom) by (nonlinear_arith)
            requires
                numer == whole * denom,
        ;
        lemma_fundamental_div_mod_converse(-numer, denom, -whole, 0);
    }
    assert(fraction(numer, denom) == 0);
    assert(WHITE * fraction(numer, denom) == 0);
    lemma_fundamental_div_mod_converse(0, denom, 0, 0);
    lemma_fundamental_div_mod_converse(0, 256, 0, 0);
}

} // verus!
