//! Human-scaled text of byte quantities.
//!
//! A quantity is shown in the largest of the units bytes, KB, MB and GB that
//! it reaches. The scaled units are binary (1 KB is 1024 bytes) and carry two
//! decimal places. The quotient is taken in double precision: the quantity is
//! first rounded to a 53-bit significand, then divided by the unit, which is
//! exact, and the result is rounded to hundredths, ties to even.

use crate::decimal::{
    decimal_text, fixed_text, push_decimal, push_fixed, round_half_even,
    round_half_even_is_nearest, rounded_quotient,
};
use vstd::arithmetic::div_mod::*;
use vstd::arithmetic::power2::*;
use vstd::prelude::*;
use vstd::string::*;

verus! {

/// Bytes in a kilobyte.
pub const KB: u64 = 1024;

/// Bytes in a megabyte.
pub const MB: u64 = 1_048_576;

/// Bytes in a gigabyte.
pub const GB: u64 = 1_073_741_824;

/// The first integer that a 53-bit significand cannot hold.
pub const SIGNIFICAND_LIMIT: u64 = 0x20_0000_0000_0000;

/// How many low bits of `v` lie beyond a 53-bit significand.
pub open spec fn excess_bits(v: nat) -> nat
    decreases v,
{
    if v < SIGNIFICAND_LIMIT {
        0
    } else {
        1 + excess_bits(v / 2)
    }
}

/// The integer that `v` becomes in double precision: `v` rounded to 53
/// significant bits, ties to even.
pub open spec fn nearest_double(v: nat) -> nat {
    let unit = pow2(excess_bits(v));
    round_half_even(v, unit) * unit
}

/// The hundredths of `unit` in the double nearest to `v`, rounded to the
/// nearest integer, ties to even.
pub open spec fn scaled_hundredths(v: nat, unit: nat) -> nat {
    round_half_even(nearest_double(v) * 100, unit)
}

/// The display text of a quantity of `v` bytes.
pub open spec fn memory_text(v: nat) -> Seq<char> {
    if v >= GB {
        fixed_text(scaled_hundredths(v, GB as nat), 2) + "GB"@
    } else if v >= MB {
        fixed_text(scaled_hundredths(v, MB as nat), 2) + "MB"@
    } else if v >= KB {
        fixed_text(scaled_hundredths(v, KB as nat), 2) + "KB"@
    } else {
        decimal_text(v) + " bytes"@
    }
}

/// A quantity that fits a 53-bit significand is exact in double precision.
pub proof fn nearest_double_exact(v: nat)
    requires
        v < SIGNIFICAND_LIMIT,
    ensures
        nearest_double(v) == v,
{
    lemma2_to64();
    assert(excess_bits(v) == 0);
    assert(round_half_even(v, 1) == v);
}

/// Without its excess bits a quantity fits a 53-bit significand.
pub proof fn excess_bits_suffice(v: nat)
    ensures
        v / pow2(excess_bits(v)) < SIGNIFICAND_LIMIT,
    decreases v,
{
    lemma2_to64();
    if v >= SIGNIFICAND_LIMIT {
        let k = excess_bits(v / 2);
        excess_bits_suffice(v / 2);
        lemma_pow2_unfold(k + 1);
        lemma_pow2_pos(k);
        lemma_div_denominator(v as int, 2, pow2(k) as int);
    } else {
        assert(v / 1 == v);
    }
}

/// The double nearest to a quantity is a significand of at most 53 bits,
/// or 2^53, times a power of two, and lies at most half of that power away
/// from the quantity.
pub proof fn nearest_double_is_nearest(v: nat)
    ensures
        nearest_double(v) == round_half_even(v, pow2(excess_bits(v))) * pow2(excess_bits(v)),
        round_half_even(v, pow2(excess_bits(v))) <= SIGNIFICAND_LIMIT,
        2 * (nearest_double(v) - v) <= pow2(excess_bits(v)),
        2 * (v - nearest_double(v)) <= pow2(excess_bits(v)),
{
    let unit = pow2(excess_bits(v));
    lemma_pow2_pos(excess_bits(v));
    excess_bits_suffice(v);
    round_half_even_is_nearest(v, unit);
}

/// Rounds a quantity to the integer that it becomes in double precision.
pub fn nearest_double_of(value: u64) -> (rounded: u128)
    ensures
        rounded == nearest_double(value as nat),
        rounded <= 0x1_0000_0000_0000_0000,
{
    let mut q: u64 = value;
    let mut unit: u128 = 1;
    let ghost mut k: nat = 0;
    proof {
        lemma2_to64();
    }
    while q >= SIGNIFICAND_LIMIT
        invariant
            unit == pow2(k),
            k <= 11,
            0 < unit <= 2048,
            q as int == (value as int) / (unit as int),
            excess_bits(value as nat) == k + excess_bits(q as nat),
        decreases q,
    {
        proof {
            lemma2_to64();
            lemma_pow2_unfold(k + 1);
            lemma_div_denominator(value as int, unit as int, 2);
            lemma_fundamental_div_mod(value as int, unit as int);
            assert(unit * q <= value);
            assert(unit < 2048) by (nonlinear_arith)
                requires
                    unit * q <= value,
                    q >= 0x20_0000_0000_0000,
                    value < 0x1_0000_0000_0000_0000,
                    unit > 0,
            ;
            if k >= 11 {
                if k > 11 {
                    lemma_pow2_strictly_increases(11, k);
                }
                assert(false);
            }
            if k < 10 {
                lemma_pow2_strictly_increases(k + 1, 11);
            }
            k = k + 1;
        }
        q = q / 2;
        unit = unit * 2;
    }
    let quotient: u128 = rounded_quotient(value as u128, unit);
    proof {
        lemma_fundamental_div_mod(value as int, unit as int);
        assert(quotient * unit <= value + unit) by (nonlinear_arith)
            requires
                quotient <= value as int / unit as int + 1,
                value as int == unit * (value as int / unit as int) + value as int % (unit as int),
                0 <= value as int % (unit as int),
                unit > 0,
        ;
        if unit > 1 {
            // Above the significand limit the quotient is at most 2^53, so
            // the product cannot pass 2^64.
            assert(value as int / unit as int == q);
            assert(quotient <= 0x20_0000_0000_0000);
            assert(quotient * unit <= 0x1_0000_0000_0000_0000) by (nonlinear_arith)
                requires
                    quotient <= 0x20_0000_0000_0000,
                    unit <= 2048,
            ;
        }
    }
    quotient * unit
}

/// Appends the two-place text of `value / unit`.
fn push_scaled(out: &mut String, value: u64, unit: u64)
    requires
        unit > 0,
    ensures
        final(out)@ == old(out)@ + fixed_text(scaled_hundredths(value as nat, unit as nat), 2),
{
    let exact: u128 = nearest_double_of(value);
    let hundredths: u128 = rounded_quotient(exact * 100, unit as u128);
    push_fixed(out, hundredths, 2);
}

/// Appends the display text of a quantity of bytes.
pub fn push_memory(out: &mut String, value: u64)
    ensures
        final(out)@ == old(out)@ + memory_text(value as nat),
{
    if value >= GB {
        push_scaled(out, value, GB);
        out.append("GB");
    } else if value >= MB {
        push_scaled(out, value, MB);
        out.append("MB");
    } else if value >= KB {
        push_scaled(out, value, KB);
        out.append("KB");
    } else {
        push_decimal(out, value as u128);
        out.append(" bytes");
    }
    assert(out@ =~= old(out)@ + memory_text(value as nat));
}

/// The display text of a quantity of bytes: "512 bytes", "2.00KB", "5.00MB",
/// "3.00GB".
pub fn format_memory(value: u64) -> (text: String)
    ensures
        text@ == memory_text(value as nat),
{
    let mut text = String::new();
    push_memory(&mut text, value);
    assert(text@ =~= memory_text(value as nat));
    text
}

} // verus!
