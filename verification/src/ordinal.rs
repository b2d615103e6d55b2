//! The ordinal in a sensor label.
//!
//! The label is read up to its first numeric character. From there the
//! longest run of numeric characters is taken and read as a decimal
//! numeral. A label without such a run, with a run that is no decimal
//! numeral, or with a numeral too large for `usize` has the ordinal zero.
//!
//! Which characters are numeric is decided by the standard library. Each
//! character of a label is first marked with that answer; everything after
//! works on the marked characters.

use crate::decimal::{decimal_text, digit_char};
use crate::label::chars_of;
use vstd::prelude::*;

verus! {

/// What `char::is_numeric` of the standard library answers for `c`:
/// whether Unicode puts the character in one of its general categories for
/// numbers (Nd, Nl, No).
pub uninterp spec fn unicode_numeric(c: char) -> bool;

/// Calls `char::is_numeric` of the standard library. Its answer depends on
/// the character alone, by tables of the Unicode Character Database that are
/// not restated here; the contract gives it the name `unicode_numeric`.
#[verifier::external_body]
fn is_numeric(c: char) -> (numeric: bool)
    ensures
        numeric == unicode_numeric(c),
{
    c.is_numeric()
}

/// A character of a label, marked as numeric or not.
#[derive(Clone, Copy, Debug)]
pub struct Marked {
    pub character: char,
    pub numeric: bool,
}

/// The character `c`, marked with what `char::is_numeric` answers for it.
pub open spec fn marked_char(c: char) -> Marked {
    Marked { character: c, numeric: unicode_numeric(c) }
}

/// The characters of `label`, each marked with what `char::is_numeric`
/// answers for it.
pub open spec fn marked(label: Seq<char>) -> Seq<Marked> {
    Seq::new(label.len(), |i: int| marked_char(label[i]))
}

/// Whether `c` is one of the ten ASCII decimal digits.
pub open spec fn is_decimal_digit(c: char) -> bool {
    '0' <= c <= '9'
}

/// The number that the ASCII decimal digit `c` writes.
pub open spec fn digit_value(c: char) -> nat
    recommends
        is_decimal_digit(c),
{
    (c as u32 - '0' as u32) as nat
}

/// The position of the first numeric character at or after `from`; the
/// length of `chars` where there is none.
pub open spec fn numeric_start(chars: Seq<Marked>, from: int) -> int
    decreases chars.len() - from,
{
    if from >= chars.len() {
        chars.len() as int
    } else if chars[from].numeric {
        from
    } else {
        numeric_start(chars, from + 1)
    }
}

/// The position of the first character at or after `from` that is not
/// numeric; the length of `chars` where there is none.
pub open spec fn numeric_end(chars: Seq<Marked>, from: int) -> int
    decreases chars.len() - from,
{
    if from >= chars.len() {
        chars.len() as int
    } else if !chars[from].numeric {
        from
    } else {
        numeric_end(chars, from + 1)
    }
}

/// The characters of `chars` from `from` up to `to`.
pub open spec fn characters(chars: Seq<Marked>, from: int, to: int) -> Seq<char> {
    Seq::new((to - from) as nat, |i: int| chars[from + i].character)
}

/// The first maximal run of numeric characters; empty where no character is
/// numeric.
pub open spec fn numeric_run(chars: Seq<Marked>) -> Seq<char> {
    let start = numeric_start(chars, 0);
    characters(chars, start, numeric_end(chars, start))
}

/// Whether every character of `run` is an ASCII decimal digit.
pub open spec fn all_decimal_digits(run: Seq<char>) -> bool {
    forall|i: int| 0 <= i < run.len() ==> is_decimal_digit(#[trigger] run[i])
}

/// The number that a run of ASCII decimal digits writes; zero for the empty
/// run.
pub open spec fn decimal_value(run: Seq<char>) -> nat
    decreases run.len(),
{
    if run.len() == 0 {
        0
    } else {
        decimal_value(run.drop_last()) * 10 + digit_value(run.last())
    }
}

/// The number that `run` stands for as an ordinal: its decimal value where
/// it is a decimal numeral that fits `usize`, and zero otherwise.
pub open spec fn numeral_or_zero(run: Seq<char>) -> nat {
    if all_decimal_digits(run) && decimal_value(run) <= usize::MAX {
        decimal_value(run)
    } else {
        0
    }
}

/// The ordinal in marked characters: the number of their first maximal run
/// of numeric characters.
pub open spec fn ordinal_in_marked(chars: Seq<Marked>) -> nat {
    numeral_or_zero(numeric_run(chars))
}

/// The ordinal in a label.
pub open spec fn ordinal_of(label: Seq<char>) -> nat {
    ordinal_in_marked(marked(label))
}

/// From `from` up to `numeric_start` no character is numeric, and the
/// character at `numeric_start`, if there is one, is numeric.
pub proof fn numeric_start_is_first(chars: Seq<Marked>, from: int)
    requires
        0 <= from <= chars.len(),
    ensures
        from <= numeric_start(chars, from) <= chars.len(),
        forall|i: int| from <= i < numeric_start(chars, from) ==> !chars[i].numeric,
        numeric_start(chars, from) < chars.len() ==> chars[numeric_start(chars, from)].numeric,
    decreases chars.len() - from,
{
    if from < chars.len() && !chars[from].numeric {
        numeric_start_is_first(chars, from + 1);
    }
}

/// From `from` up to `numeric_end` every character is numeric, and the
/// character at `numeric_end`, if there is one, is not.
pub proof fn numeric_end_is_maximal(chars: Seq<Marked>, from: int)
    requires
        0 <= from <= chars.len(),
    ensures
        from <= numeric_end(chars, from) <= chars.len(),
        forall|i: int| from <= i < numeric_end(chars, from) ==> chars[i].numeric,
        numeric_end(chars, from) < chars.len() ==> !chars[numeric_end(chars, from)].numeric,
    decreases chars.len() - from,
{
    if from < chars.len() && chars[from].numeric {
        numeric_end_is_maximal(chars, from + 1);
    }
}

/// A label without a numeric character has the ordinal zero.
pub proof fn ordinal_without_numeric(label: Seq<char>)
    requires
        forall|i: int| 0 <= i < label.len() ==> !unicode_numeric(label[i]),
    ensures
        ordinal_of(label) == 0,
{
    let chars = marked(label);
    numeric_start_is_first(chars, 0);
    let start = numeric_start(chars, 0);
    if start < chars.len() {
        assert(chars[start].numeric == unicode_numeric(label[start]));
    }
    assert(numeric_end(chars, start) == start);
    assert(numeric_run(chars) =~= Seq::<char>::empty());
}

/// A label that ends in a numeral has the numeral as its ordinal: where no
/// character before `at` is numeric, and all from `at` on are decimal digits
/// that the standard library takes for numeric, the ordinal is the number
/// that they write, if it fits `usize`.
pub proof fn ordinal_of_trailing_numeral(label: Seq<char>, at: int)
    requires
        0 <= at < label.len(),
        forall|i: int| 0 <= i < at ==> !unicode_numeric(label[i]),
        forall|i: int| at <= i < label.len() ==> unicode_numeric(label[i]) && is_decimal_digit(label[i]),
        decimal_value(label.subrange(at, label.len() as int)) <= usize::MAX,
    ensures
        ordinal_of(label) == decimal_value(label.subrange(at, label.len() as int)),
{
    let chars = marked(label);
    numeric_start_is_first(chars, 0);
    let start = numeric_start(chars, 0);
    if start < at {
        assert(chars[start].numeric == unicode_numeric(label[start]));
    }
    if start > at {
        assert(chars[at].numeric == unicode_numeric(label[at]));
    }
    assert(start == at);
    numeric_end_is_maximal(chars, start);
    let end = numeric_end(chars, start);
    if end < chars.len() {
        assert(chars[end].numeric == unicode_numeric(label[end]));
    }
    assert(numeric_run(chars) =~= label.subrange(at, label.len() as int));
}

/// Reading undoes writing: the decimal numeral of a number is a run of
/// decimal digits whose value is the number.
pub proof fn numeral_round_trip(n: nat)
    ensures
        all_decimal_digits(decimal_text(n)),
        decimal_value(decimal_text(n)) == n,
    decreases n,
{
    let text = decimal_text(n);
    let last = digit_char(n % 10);
    assert(is_decimal_digit(last) && digit_value(last) == n % 10);
    if n < 10 {
        assert(text.drop_last() =~= Seq::<char>::empty());
        assert(decimal_value(text.drop_last()) == 0);
    } else {
        numeral_round_trip(n / 10);
        assert(text.drop_last() =~= decimal_text(n / 10));
    }
}

/// Marks each character of a label as numeric or not.
pub fn mark(label: &str) -> (chars: Vec<Marked>)
    ensures
        chars@ == marked(label@),
{
    let plain = chars_of(label);
    let mut chars: Vec<Marked> = Vec::new();
    let mut i: usize = 0;
    while i < plain.len()
        invariant
            i <= plain.len(),
            plain@ == label@,
            chars@ == marked(label@).subrange(0, i as int),
        decreases plain.len() - i,
    {
        let c: char = plain[i];
        let next = Marked { character: c, numeric: is_numeric(c) };
        assert(next == marked_char(c));
        assert(marked(label@)[i as int] == marked_char(label@[i as int]));
        chars.push(next);
        assert(chars@ =~= marked(label@).subrange(0, i + 1));
        i = i + 1;
    }
    assert(chars@ =~= marked(label@));
    chars
}

/// The ordinal in marked characters.
pub fn ordinal_in(chars: &Vec<Marked>) -> (ordinal: usize)
    ensures
        ordinal == ordinal_in_marked(chars@),
{
    let n: usize = chars.len();
    let mut start: usize = 0;
    while start < n && !chars[start].numeric
        invariant
            start <= n,
            n == chars@.len(),
            numeric_start(chars@, 0) == numeric_start(chars@, start as int),
        decreases n - start,
    {
        start = start + 1;
    }
    let mut end: usize = start;
    let mut value: usize = 0;
    let mut valid: bool = true;
    while end < n && chars[end].numeric
        invariant
            start <= end <= n,
            n == chars@.len(),
            numeric_end(chars@, start as int) == numeric_end(chars@, end as int),
            valid <==> all_decimal_digits(characters(chars@, start as int, end as int))
                && decimal_value(characters(chars@, start as int, end as int)) <= usize::MAX,
            valid ==> value == decimal_value(characters(chars@, start as int, end as int)),
        decreases n - end,
    {
        let c: char = chars[end].character;
        let ghost before = characters(chars@, start as int, end as int);
        let ghost after = characters(chars@, start as int, end + 1);
        proof {
            assert(after.drop_last() =~= before);
            assert(after.last() == c);
            assert(all_decimal_digits(after) <==> all_decimal_digits(before) && is_decimal_digit(c))
                by {
                if all_decimal_digits(after) {
                    assert forall|i: int| 0 <= i < before.len() implies is_decimal_digit(
                        #[trigger] before[i],
                    ) by {
                        assert(before[i] == after[i]);
                    }
                    assert(after[end - start] == c);
                }
                if all_decimal_digits(before) && is_decimal_digit(c) {
                    assert forall|i: int| 0 <= i < after.len() implies is_decimal_digit(
                        #[trigger] after[i],
                    ) by {
                        if i < before.len() {
                            assert(after[i] == before[i]);
                        }
                    }
                }
            }
        }
        if valid {
            if c >= '0' && c <= '9' {
                let digit: usize = (c as u32 - '0' as u32) as usize;
                if value <= (usize::MAX - digit) / 10 {
                    value = value * 10 + digit;
                } else {
                    valid = false;
                }
            } else {
                valid = false;
            }
        }
        end = end + 1;
    }
    assert(characters(chars@, start as int, end as int) == numeric_run(chars@));
    if valid {
        value
    } else {
        0
    }
}

/// The ordinal in a label: "coretemp-Core 3" has 3, "coretemp" has 0.
pub fn extract_ordinal(label: &str) -> (ordinal: usize)
    ensures
        ordinal == ordinal_of(label@),
{
    let chars = mark(label);
    ordinal_in(&chars)
}

} // verus!
