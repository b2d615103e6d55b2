//! Single-precision values held as their IEEE 754 binary32 bit patterns.
//!
//! A pattern is read as a sign bit, eight exponent bits and twenty-three
//! fraction bits. A finite pattern stands for
//! `significand * 2^exponent`, negated where the sign bit is set. All
//! comparisons and texts are computed on these integers.

use crate::decimal::{
    decimal_text, fixed_text, padded_text, pow10, pow10_adds, pow10_monotonic, pow10_of,
    push_decimal, push_fixed, push_padded, round_half_even, rounded_quotient,
};
use vstd::arithmetic::div_mod::*;
use vstd::arithmetic::power2::*;
use vstd::prelude::*;
use vstd::string::*;

verus! {

/// The bit pattern of a single-precision value.
#[derive(Clone, Copy, Debug)]
pub struct Binary32 {
    pub bits: u32,
}

/// The largest number of decimal places that `Binary32::push_display` takes.
pub const MAX_PLACES: u32 = 30;

impl Binary32 {
    /// Whether the sign bit is set.
    pub open spec fn negative(self) -> bool {
        self.bits >= 0x8000_0000
    }

    /// The eight exponent bits, as a number below 256.
    pub open spec fn exponent_bits(self) -> nat {
        (self.bits as nat / 0x80_0000) % 256
    }

    /// The twenty-three fraction bits, as a number below 2^23.
    pub open spec fn fraction_bits(self) -> nat {
        self.bits as nat % 0x80_0000
    }

    /// Whether the pattern is not a number.
    pub open spec fn is_nan(self) -> bool {
        self.exponent_bits() == 255 && self.fraction_bits() != 0
    }

    /// Whether the pattern is an infinity.
    pub open spec fn is_infinite(self) -> bool {
        self.exponent_bits() == 255 && self.fraction_bits() == 0
    }

    /// The integer significand of a finite pattern: the fraction bits, with
    /// the implicit leading one unless the pattern is zero or subnormal.
    pub open spec fn significand(self) -> nat {
        if self.exponent_bits() == 0 {
            self.fraction_bits()
        } else {
            0x80_0000 + self.fraction_bits()
        }
    }

    /// The power of two that scales the significand of a finite pattern.
    pub open spec fn exponent(self) -> int {
        if self.exponent_bits() == 0 {
            -149
        } else {
            self.exponent_bits() - 150
        }
    }

    /// Whether the value is strictly greater than the natural number
    /// `limit`. Nothing that is not a number is greater, nothing negative
    /// is, and positive infinity is.
    pub open spec fn is_above(self, limit: nat) -> bool {
        &&& !self.is_nan()
        &&& !self.negative()
        &&& (self.is_infinite() || if self.exponent() >= 0 {
            self.significand() * pow2(self.exponent() as nat) > limit
        } else {
            self.significand() > limit * pow2((-self.exponent()) as nat)
        })
    }

    /// The magnitude of a finite pattern in units of `10^-places`, rounded
    /// to the nearest integer, ties to even.
    pub open spec fn scaled_magnitude(self, places: nat) -> nat {
        if self.exponent() >= 0 {
            self.significand() * pow2(self.exponent() as nat) * pow10(places)
        } else {
            round_half_even(self.significand() * pow10(places), pow2((-self.exponent()) as nat))
        }
    }

    /// The text of the value with exactly `places` digits after the point:
    /// "NaN", "inf" and "-inf" for the special patterns, and a minus sign
    /// wherever the sign bit of a number is set, also before a zero.
    pub open spec fn display_text(self, places: nat) -> Seq<char> {
        if self.is_nan() {
            "NaN"@
        } else {
            let sign = if self.negative() {
                "-"@
            } else {
                Seq::empty()
            };
            if self.is_infinite() {
                sign + "inf"@
            } else {
                sign + fixed_text(self.scaled_magnitude(places), places)
            }
        }
    }

    /// The pattern `bits`.
    pub fn from_bits(bits: u32) -> (value: Binary32)
        ensures
            value.bits == bits,
    {
        Binary32 { bits }
    }

    /// Reads the sign bit.
    pub fn has_sign(&self) -> (set: bool)
        ensures
            set == self.negative(),
    {
        self.bits >= 0x8000_0000
    }

    /// Reads the exponent bits.
    pub fn exponent_field(&self) -> (field: u32)
        ensures
            field == self.exponent_bits(),
            field < 256,
    {
        (self.bits / 0x80_0000) % 256
    }

    /// Reads the fraction bits.
    pub fn fraction_field(&self) -> (field: u32)
        ensures
            field == self.fraction_bits(),
            field < 0x80_0000,
    {
        self.bits % 0x80_0000
    }

    /// Reads the significand.
    pub fn significand_value(&self) -> (significand: u32)
        ensures
            significand == self.significand(),
            significand < 0x100_0000,
    {
        if self.exponent_field() == 0 {
            self.fraction_field()
        } else {
            0x80_0000 + self.fraction_field()
        }
    }

    /// Reads the power of two that scales the significand.
    pub fn exponent_value(&self) -> (exponent: i32)
        ensures
            exponent == self.exponent(),
            -149 <= exponent <= 105,
    {
        let field: u32 = self.exponent_field();
        if field == 0 {
            -149
        } else {
            field as i32 - 150
        }
    }

    /// Whether the pattern is not a number.
    pub fn not_a_number(&self) -> (nan: bool)
        ensures
            nan == self.is_nan(),
    {
        self.exponent_field() == 255 && self.fraction_field() != 0
    }

    /// Whether the pattern is an infinity.
    pub fn infinite(&self) -> (infinite: bool)
        ensures
            infinite == self.is_infinite(),
    {
        self.exponent_field() == 255 && self.fraction_field() == 0
    }

    /// Whether the value is strictly greater than `limit`.
    pub fn exceeds(&self, limit: u32) -> (above: bool)
        ensures
            above == self.is_above(limit as nat),
    {
        if self.not_a_number() || self.has_sign() {
            return false;
        }
        if self.infinite() {
            return true;
        }
        let significand: u128 = self.significand_value() as u128;
        let exponent: i32 = self.exponent_value();
        if exponent >= 0 {
            let unit: u128 = pow2_of(exponent as u32);
            proof {
                pow2_at_most(exponent as nat, 104);
                assert(significand * unit < 0x1_0000_0000_0000_0000_0000_0000_0000_0000)
                    by (nonlinear_arith)
                    requires
                        significand < 0x100_0000,
                        unit <= 0x100_0000_0000_0000_0000_0000_0000,
                ;
            }
            significand * unit > limit as u128
        } else {
            let shift: u32 = (-exponent) as u32;
            if shift >= 32 {
                // The limit times 2^32 is beyond every significand, unless
                // the limit is zero.
                proof {
                    pow2_at_least(32, shift as nat);
                    lemma2_to64();
                    if limit > 0 {
                        assert(limit * pow2(shift as nat) >= 0x1_0000_0000) by (nonlinear_arith)
                            requires
                                limit >= 1,
                                pow2(shift as nat) >= 0x1_0000_0000,
                        ;
                    } else {
                        assert(limit * pow2(shift as nat) == 0) by (nonlinear_arith)
                            requires
                                limit == 0,
                        ;
                    }
                }
                limit == 0 && significand > 0
            } else {
                let unit: u128 = pow2_of(shift);
                proof {
                    pow2_at_most(shift as nat, 32);
                    lemma2_to64();
                    assert(limit * unit <= 0xFFFF_FFFF * 0x1_0000_0000) by (nonlinear_arith)
                        requires
                            limit <= 0xFFFF_FFFF,
                            unit <= 0x1_0000_0000,
                    ;
                }
                significand > limit as u128 * unit
            }
        }
    }

    /// Appends the magnitude of a finite pattern with `places` digits after
    /// the point.
    fn push_magnitude(&self, out: &mut String, places: u32)
        requires
            places <= MAX_PLACES,
            !self.is_nan(),
            !self.is_infinite(),
        ensures
            final(out)@ == old(out)@ + fixed_text(
                self.scaled_magnitude(places as nat),
                places as nat,
            ),
    {
        let significand: u128 = self.significand_value() as u128;
        let exponent: i32 = self.exponent_value();
        if exponent >= 0 {
            // A whole number: its digits, and zeros after the point.
            let unit: u128 = pow2_of(exponent as u32);
            proof {
                pow2_at_most(exponent as nat, 104);
                assert(significand * unit < 0x1_0000_0000_0000_0000_0000_0000_0000_0000)
                    by (nonlinear_arith)
                    requires
                        significand < 0x100_0000,
                        unit <= 0x100_0000_0000_0000_0000_0000_0000,
                ;
            }
            let whole: u128 = significand * unit;
            push_decimal(out, whole);
            if places > 0 {
                out.append(".");
                push_padded(out, 0, places);
            }
            proof {
                reveal_strlit(".");
                assert("."@ =~= seq!['.']);
                whole_number_text(whole as nat, places as nat);
                assert(out@ =~= old(out)@ + fixed_text(
                    self.scaled_magnitude(places as nat),
                    places as nat,
                ));
            }
        } else {
            let shift: u32 = (-exponent) as u32;
            let tens: u128 = pow10_of(places);
            proof {
                pow10_monotonic(places as nat, 30);
                pow10_thirty();
                assert(significand * tens < 0x100_0000 * 1_000_000_000_000_000_000_000_000_000_000)
                    by (nonlinear_arith)
                    requires
                        significand < 0x100_0000,
                        tens <= 1_000_000_000_000_000_000_000_000_000_000,
                ;
            }
            let numerator: u128 = significand * tens;
            let scaled: u128 = if shift >= 126 {
                // The numerator is below half of 2^126: the quotient rounds
                // to zero.
                proof {
                    pow2_at_least(126, shift as nat);
                    pow2_at_most(126, 126);
                    let unit = pow2(shift as nat) as int;
                    lemma_basic_div(numerator as int, unit);
                    lemma_small_mod(numerator as nat, unit as nat);
                }
                0
            } else {
                rounded_quotient(numerator, pow2_of(shift))
            };
            push_fixed(out, scaled, places);
        }
    }

    /// Appends the text of the value with `places` digits after the point.
    pub fn push_display(&self, out: &mut String, places: u32)
        requires
            places <= MAX_PLACES,
        ensures
            final(out)@ == old(out)@ + self.display_text(places as nat),
    {
        if self.not_a_number() {
            out.append("NaN");
        } else {
            if self.has_sign() {
                out.append("-");
            }
            if self.infinite() {
                out.append("inf");
            } else {
                self.push_magnitude(out, places);
            }
        }
        assert(out@ =~= old(out)@ + self.display_text(places as nat));
    }

    /// The text of the value with `places` digits after the point.
    pub fn to_fixed_string(&self, places: u32) -> (text: String)
        requires
            places <= MAX_PLACES,
        ensures
            text@ == self.display_text(places as nat),
    {
        let mut text = String::new();
        self.push_display(&mut text, places);
        assert(text@ =~= self.display_text(places as nat));
        text
    }
}

/// The value of ten to the power thirty.
proof fn pow10_thirty()
    ensures
        pow10(30) == 1_000_000_000_000_000_000_000_000_000_000nat,
{
    assert(pow10(10) == 10_000_000_000nat) by {
        reveal_with_fuel(pow10, 11);
    }
    pow10_adds(10, 10);
    pow10_adds(20, 10);
}

/// A whole number scaled by a power of ten has that number before the point
/// and only zeros after it.
proof fn whole_number_text(whole: nat, places: nat)
    ensures
        fixed_text(whole * pow10(places), places) == if places == 0 {
            decimal_text(whole)
        } else {
            decimal_text(whole) + seq!['.'] + padded_text(0, places)
        },
{
    pow10_monotonic(0, places);
    let unit = pow10(places) as int;
    if places == 0 {
        assert(whole * pow10(0) == whole) by (nonlinear_arith)
            requires
                pow10(0) == 1,
        ;
    } else {
        lemma_div_by_multiple(whole as int, unit);
        lemma_mod_multiples_basic(whole as int, unit);
    }
}

/// Two to the power `e` is at most two to the power `top`; and the values of
/// some powers beyond 64 bits.
pub proof fn pow2_at_most(e: nat, top: nat)
    requires
        e <= top,
    ensures
        pow2(e) <= pow2(top),
        pow2(32) == 0x1_0000_0000,
        pow2(104) == 0x100_0000_0000_0000_0000_0000_0000,
        pow2(126) == 0x4000_0000_0000_0000_0000_0000_0000_0000,
{
    lemma2_to64();
    lemma2_to64_rest();
    lemma_pow2_adds(64, 40);
    lemma_pow2_adds(64, 62);
    if e < top {
        lemma_pow2_strictly_increases(e, top);
    }
}

/// Two to the power `e` is at least two to the power `bottom`.
pub proof fn pow2_at_least(bottom: nat, e: nat)
    requires
        bottom <= e,
    ensures
        pow2(bottom) <= pow2(e),
{
    if bottom < e {
        lemma_pow2_strictly_increases(bottom, e);
    }
}

/// Two to the power `k`, for the exponents whose power fits the type.
pub fn pow2_of(k: u32) -> (p: u128)
    requires
        k <= 127,
    ensures
        p == pow2(k as nat),
        p > 0,
{
    let mut p: u128 = 1;
    let mut i: u32 = 0;
    proof {
        lemma2_to64();
    }
    while i < k
        invariant
            i <= k <= 127,
            p == pow2(i as nat),
        decreases k - i,
    {
        proof {
            lemma_pow2_unfold((i + 1) as nat);
            pow2_at_most(i as nat, 126);
        }
        p = p * 2;
        i = i + 1;
    }
    proof {
        lemma_pow2_pos(k as nat);
    }
    p
}

} // verus!
