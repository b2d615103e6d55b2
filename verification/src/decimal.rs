//! Decimal text of natural numbers and of fractions rounded to a fixed
//! number of places.

use vstd::prelude::*;
use vstd::string::*;

verus! {

/// The character that writes the decimal digit `d`.
pub open spec fn digit_char(d: nat) -> char
    recommends
        d < 10,
{
    if d == 0 {
        '0'
    } else if d == 1 {
        '1'
    } else if d == 2 {
        '2'
    } else if d == 3 {
        '3'
    } else if d == 4 {
        '4'
    } else if d == 5 {
        '5'
    } else if d == 6 {
        '6'
    } else if d == 7 {
        '7'
    } else if d == 8 {
        '8'
    } else {
        '9'
    }
}

/// The decimal numeral of `n`, without leading zeros (`0` is written "0").
pub open spec fn decimal_text(n: nat) -> Seq<char>
    decreases n,
{
    if n < 10 {
        seq![digit_char(n)]
    } else {
        decimal_text(n / 10).push(digit_char(n % 10))
    }
}

/// The last `width` decimal digits of `n`, with leading zeros.
pub open spec fn padded_text(n: nat, width: nat) -> Seq<char>
    decreases width,
{
    if width == 0 {
        Seq::empty()
    } else {
        padded_text(n / 10, (width - 1) as nat).push(digit_char(n % 10))
    }
}

/// Ten to the power `e`.
pub open spec fn pow10(e: nat) -> nat
    decreases e,
{
    if e == 0 {
        1
    } else {
        10 * pow10((e - 1) as nat)
    }
}

/// The integer nearest to `num / den`; a fraction of exactly one half goes
/// to the even neighbour.
pub open spec fn round_half_even(num: nat, den: nat) -> nat
    recommends
        den > 0,
{
    let q = num / den;
    let r = num % den;
    if 2 * r < den {
        q
    } else if 2 * r > den {
        q + 1
    } else if q % 2 == 0 {
        q
    } else {
        q + 1
    }
}

/// The text of `scaled / 10^places` with exactly `places` digits after the
/// point, and no point where `places` is zero.
pub open spec fn fixed_text(scaled: nat, places: nat) -> Seq<char> {
    if places == 0 {
        decimal_text(scaled)
    } else {
        decimal_text(scaled / pow10(places)) + seq!['.'] + padded_text(
            scaled % pow10(places),
            places,
        )
    }
}

/// The one-character text of a single digit.
pub fn digit_str(d: u8) -> (text: &'static str)
    requires
        d < 10,
    ensures
        text@ == seq![digit_char(d as nat)],
{
    proof {
        reveal_strlit("0");
        reveal_strlit("1");
        reveal_strlit("2");
        reveal_strlit("3");
        reveal_strlit("4");
        reveal_strlit("5");
        reveal_strlit("6");
        reveal_strlit("7");
        reveal_strlit("8");
        reveal_strlit("9");
    }
    let text = if d == 0 {
        "0"
    } else if d == 1 {
        "1"
    } else if d == 2 {
        "2"
    } else if d == 3 {
        "3"
    } else if d == 4 {
        "4"
    } else if d == 5 {
        "5"
    } else if d == 6 {
        "6"
    } else if d == 7 {
        "7"
    } else if d == 8 {
        "8"
    } else {
        "9"
    };
    assert(text@ =~= seq![digit_char(d as nat)]);
    text
}

/// Appends the decimal numeral of `n` to `out`.
pub fn push_decimal(out: &mut String, n: u128)
    ensures
        final(out)@ == old(out)@ + decimal_text(n as nat),
    decreases n,
{
    if n >= 10 {
        push_decimal(out, n / 10);
    }
    let d: u8 = (n % 10) as u8;
    out.append(digit_str(d));
    assert(out@ =~= old(out)@ + decimal_text(n as nat));
}

/// Appends the last `width` decimal digits of `n` to `out`, with leading
/// zeros.
pub fn push_padded(out: &mut String, n: u128, width: u32)
    ensures
        final(out)@ == old(out)@ + padded_text(n as nat, width as nat),
    decreases width,
{
    if width > 0 {
        push_padded(out, n / 10, width - 1);
        let d: u8 = (n % 10) as u8;
        out.append(digit_str(d));
    }
    assert(out@ =~= old(out)@ + padded_text(n as nat, width as nat));
}

/// The decimal numeral of `n` as a string.
pub fn decimal_string(n: u128) -> (text: String)
    ensures
        text@ == decimal_text(n as nat),
{
    let mut text = String::new();
    push_decimal(&mut text, n);
    assert(text@ =~= decimal_text(n as nat));
    text
}

/// `pow10` grows with its exponent.
pub proof fn pow10_monotonic(a: nat, b: nat)
    requires
        a <= b,
    ensures
        0 < pow10(a) <= pow10(b),
    decreases b,
{
    if b == 0 {
    } else if a == b {
        pow10_monotonic((a - 1) as nat, (b - 1) as nat);
    } else {
        pow10_monotonic(a, (b - 1) as nat);
    }
}

/// Powers of ten multiply as their exponents add.
pub proof fn pow10_adds(a: nat, b: nat)
    ensures
        pow10(a + b) == pow10(a) * pow10(b),
    decreases a,
{
    if a == 0 {
        assert(pow10(0) * pow10(b) == pow10(b)) by (nonlinear_arith)
            requires
                pow10(0) == 1,
        ;
    } else {
        let less = (a - 1) as nat;
        pow10_adds(less, b);
        assert(less + b == (a + b - 1) as nat);
        assert(pow10(a + b) == 10 * pow10(less + b));
        assert(10 * (pow10(less) * pow10(b)) == (10 * pow10(less)) * pow10(b))
            by (nonlinear_arith);
    }
}

/// The largest power of ten that can still be multiplied by ten in 128 bits.
proof fn pow10_largest()
    ensures
        pow10(37) == 10_000_000_000_000_000_000_000_000_000_000_000_000nat,
{
    assert(pow10(12) == 1_000_000_000_000nat) by {
        reveal_with_fuel(pow10, 13);
    }
    assert(pow10(1) == 10nat) by {
        reveal_with_fuel(pow10, 2);
    }
    pow10_adds(12, 12);
    pow10_adds(24, 12);
    pow10_adds(36, 1);
}

/// Ten to the power `places`, for the exponents whose power fits the type.
pub fn pow10_of(places: u32) -> (p: u128)
    requires
        places <= 38,
    ensures
        p == pow10(places as nat),
{
    let mut p: u128 = 1;
    let mut i: u32 = 0;
    while i < places
        invariant
            i <= places <= 38,
            p == pow10(i as nat),
        decreases places - i,
    {
        proof {
            pow10_monotonic(i as nat, 37);
            pow10_largest();
        }
        p = p * 10;
        i = i + 1;
    }
    p
}

/// `round_half_even` gives a nearest integer: the result times `den` is at
/// most half of `den` away from `num`, and where it is exactly half away the
/// result is even.
pub proof fn round_half_even_is_nearest(num: nat, den: nat)
    requires
        den > 0,
    ensures
        2 * (round_half_even(num, den) * den - num) <= den,
        2 * (num - round_half_even(num, den) * den) <= den,
        2 * (round_half_even(num, den) * den - num) == den || 2 * (num - round_half_even(num, den)
            * den) == den ==> round_half_even(num, den) % 2 == 0,
{
    let q = num / den;
    let r = num % den;
    vstd::arithmetic::div_mod::lemma_fundamental_div_mod(num as int, den as int);
    assert(q * den == den * q) by (nonlinear_arith);
    assert((q + 1) * den == den * q + den) by (nonlinear_arith);
}

/// Rounds `num / den` to the nearest integer, ties to even.
pub fn rounded_quotient(num: u128, den: u128) -> (r: u128)
    requires
        den > 0,
    ensures
        r == round_half_even(num as nat, den as nat),
{
    let q: u128 = num / den;
    let r: u128 = num % den;
    let rest: u128 = den - r;
    proof {
        // A quotient that is rounded up has a divisor of at least two, so
        // it lies below the largest value of the type.
        if r >= rest {
            assert(den >= 2);
            assert(q <= num / 2) by (nonlinear_arith)
                requires
                    q == num / den,
                    den >= 2,
            ;
        }
    }
    if r < rest {
        q
    } else if r > rest {
        q + 1
    } else if q % 2 == 0 {
        q
    } else {
        q + 1
    }
}

/// Appends the text of `scaled / 10^places` with `places` digits after the
/// point.
pub fn push_fixed(out: &mut String, scaled: u128, places: u32)
    requires
        places <= 38,
    ensures
        final(out)@ == old(out)@ + fixed_text(scaled as nat, places as nat),
{
    if places == 0 {
        push_decimal(out, scaled);
    } else {
        let unit: u128 = pow10_of(places);
        proof {
            pow10_monotonic(0, places as nat);
        }
        push_decimal(out, scaled / unit);
        out.append(".");
        push_padded(out, scaled % unit, places);
        proof {
            reveal_strlit(".");
            assert("."@ =~= seq!['.']);
            assert(out@ =~= old(out)@ + fixed_text(scaled as nat, places as nat));
        }
    }
}

} // verus!
