//! Reading sensor labels: which group a label belongs to.

use vstd::prelude::*;
use vstd::string::*;

verus! {

/// The characters of `text`, in order.
pub fn chars_of(text: &str) -> (chars: Vec<char>)
    ensures
        chars@ == text@,
{
    let mut chars: Vec<char> = Vec::new();
    for c in it: text.chars()
        invariant
            it.seq() == text@,
            chars@ == it.seq().subrange(0, it.index()),
    {
        chars.push(c);
    }
    assert(chars@ =~= text@);
    chars
}

/// Whether `pattern` stands in `text` at the position `at`.
pub open spec fn occurs_at(text: Seq<char>, pattern: Seq<char>, at: int) -> bool {
    &&& 0 <= at
    &&& at + pattern.len() <= text.len()
    &&& text.subrange(at, at + pattern.len()) == pattern
}

/// Whether `text` begins with `prefix`.
pub open spec fn starts_with(text: Seq<char>, prefix: Seq<char>) -> bool {
    occurs_at(text, prefix, 0)
}

/// Whether `pattern` stands somewhere in `text`.
pub open spec fn contains(text: Seq<char>, pattern: Seq<char>) -> bool {
    exists|at: int| occurs_at(text, pattern, at)
}

/// The prefix of the labels of on-die CPU core sensors.
pub open spec fn core_prefix() -> Seq<char> {
    "coretemp"@
}

/// The text that marks the label of a GPU sensor. Case matters.
pub open spec fn gpu_mark() -> Seq<char> {
    "gpu"@
}

/// Whether a label belongs to the core group.
pub open spec fn is_core_label(label: Seq<char>) -> bool {
    starts_with(label, core_prefix())
}

/// Whether a label belongs to the GPU group.
pub open spec fn is_gpu_label(label: Seq<char>) -> bool {
    contains(label, gpu_mark())
}

/// Compares `pattern` with the characters of `text` from `at` on.
fn matches_at(text: &Vec<char>, pattern: &Vec<char>, at: usize) -> (found: bool)
    requires
        at + pattern.len() <= text.len(),
    ensures
        found == occurs_at(text@, pattern@, at as int),
{
    let mut i: usize = 0;
    while i < pattern.len()
        invariant
            i <= pattern.len(),
            at + pattern.len() <= text.len(),
            forall|j: int| 0 <= j < i ==> text@[at + j] == pattern@[j],
        decreases pattern.len() - i,
    {
        if text[at + i] != pattern[i] {
            assert(text@.subrange(at as int, at + pattern.len())[i as int] == text@[at + i]);
            return false;
        }
        i = i + 1;
    }
    assert(text@.subrange(at as int, at + pattern.len()) =~= pattern@);
    true
}

/// Whether `text` begins with `prefix`.
pub fn has_prefix(text: &str, prefix: &str) -> (found: bool)
    ensures
        found == starts_with(text@, prefix@),
{
    let text_chars = chars_of(text);
    let prefix_chars = chars_of(prefix);
    if prefix_chars.len() > text_chars.len() {
        false
    } else {
        matches_at(&text_chars, &prefix_chars, 0)
    }
}

/// Whether `pattern` stands somewhere in `text`.
pub fn has_substring(text: &str, pattern: &str) -> (found: bool)
    ensures
        found == contains(text@, pattern@),
{
    let text_chars = chars_of(text);
    let pattern_chars = chars_of(pattern);
    if pattern_chars.len() > text_chars.len() {
        return false;
    }
    let last: usize = text_chars.len() - pattern_chars.len();
    let mut at: usize = 0;
    loop
        invariant
            at <= last,
            last + pattern_chars.len() == text_chars.len(),
            text_chars@ == text@,
            pattern_chars@ == pattern@,
            forall|before: int| 0 <= before < at ==> !occurs_at(text@, pattern@, before),
        decreases last - at,
    {
        if matches_at(&text_chars, &pattern_chars, at) {
            return true;
        }
        if at == last {
            return false;
        }
        at = at + 1;
    }
}

/// Whether a label belongs to the core group.
pub fn is_core(label: &str) -> (member: bool)
    ensures
        member == is_core_label(label@),
{
    has_prefix(label, "coretemp")
}

/// Whether a label belongs to the GPU group.
pub fn is_gpu(label: &str) -> (member: bool)
    ensures
        member == is_gpu_label(label@),
{
    has_substring(label, "gpu")
}

} // verus!
