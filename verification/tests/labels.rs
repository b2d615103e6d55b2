use hw_monitor::label::{chars_of, has_prefix, has_substring, is_core, is_gpu};
use hw_monitor::ordinal::{extract_ordinal, mark, ordinal_in, Marked};
use hw_monitor::sensor::{label_in_group, Group};

#[test]
fn ordinal_of_a_core_label() {
    assert_eq!(extract_ordinal("coretemp-Core 3"), 3);
    assert_eq!(extract_ordinal("coretemp-Core 12"), 12);
    assert_eq!(extract_ordinal("coretemp Core 0"), 0);
}

#[test]
fn ordinal_without_digits_is_zero() {
    assert_eq!(extract_ordinal("coretemp"), 0);
    assert_eq!(extract_ordinal(""), 0);
    assert_eq!(extract_ordinal("amdgpu edge"), 0);
}

#[test]
fn ordinal_is_the_first_run_only() {
    assert_eq!(extract_ordinal("Core 3 temp"), 3);
    assert_eq!(extract_ordinal("Package id 0 sensor 7"), 0);
    assert_eq!(extract_ordinal("a12b34"), 12);
    assert_eq!(extract_ordinal("9"), 9);
    assert_eq!(extract_ordinal("x-42"), 42);
    assert_eq!(extract_ordinal("nvme 1.5"), 1);
}

#[test]
fn ordinal_with_leading_zeros() {
    assert_eq!(extract_ordinal("Core 007"), 7);
    assert_eq!(extract_ordinal("Core 0000000000000000000000000000000000000012"), 12);
}

#[test]
fn ordinal_too_large_is_zero() {
    let largest = format!("Core {}", usize::MAX);
    assert_eq!(extract_ordinal(&largest), usize::MAX);
    let beyond = format!("Core {}0", usize::MAX);
    assert_eq!(extract_ordinal(&beyond), 0);
    assert_eq!(extract_ordinal("Core 99999999999999999999999999999999999999999"), 0);
    if usize::MAX as u128 == u64::MAX as u128 {
        assert_eq!(extract_ordinal("18446744073709551615"), usize::MAX);
        assert_eq!(extract_ordinal("18446744073709551616"), 0);
    }
}

#[test]
fn ordinal_with_numerics_that_are_not_decimal_digits() {
    // ARABIC-INDIC DIGIT THREE and SUPERSCRIPT TWO are numeric characters,
    // so they begin or continue the run, and the run is then no numeral.
    assert_eq!(extract_ordinal("Core \u{0663}"), 0);
    assert_eq!(extract_ordinal("x\u{0663}5"), 0);
    assert_eq!(extract_ordinal("x5\u{0663}"), 0);
    assert_eq!(extract_ordinal("x\u{00B2} 5"), 0);
    // A letter is not numeric: it ends the run.
    assert_eq!(extract_ordinal("x5\u{00E9}7"), 5);
}

#[test]
fn ordinal_agrees_with_parsing_the_run() {
    let mut n: usize = 0;
    while n < 3000 {
        let label = format!("coretemp-Core {}", n);
        assert_eq!(extract_ordinal(&label), n);
        let suffixed = format!("temp{}_input", n);
        assert_eq!(extract_ordinal(&suffixed), n);
        n += 1;
    }
}

#[test]
fn core_labels_begin_with_the_prefix() {
    assert!(is_core("coretemp-Core 3"));
    assert!(is_core("coretemp"));
    assert!(is_core("coretemp Package id 0"));
    assert!(!is_core("Coretemp Core 0"));
    assert!(!is_core("coretem"));
    assert!(!is_core(" coretemp Core 0"));
    assert!(!is_core("k10temp coretemp"));
    assert!(!is_core(""));
}

#[test]
fn gpu_labels_hold_the_mark() {
    assert!(is_gpu("amdgpu edge"));
    assert!(is_gpu("gpu"));
    assert!(is_gpu("my gpu 1"));
    assert!(is_gpu("xxgpgpu"));
    assert!(!is_gpu("GPU 0"));
    assert!(!is_gpu("amdGpu"));
    assert!(!is_gpu("gp u"));
    assert!(!is_gpu("gp"));
    assert!(!is_gpu(""));
}

#[test]
fn a_label_may_belong_to_both_groups_or_to_neither() {
    assert!(is_core("coretemp gpu 1"));
    assert!(is_gpu("coretemp gpu 1"));
    assert!(label_in_group("coretemp gpu 1", Group::Core));
    assert!(label_in_group("coretemp gpu 1", Group::Gpu));
    assert!(!label_in_group("nvme Composite", Group::Core));
    assert!(!label_in_group("nvme Composite", Group::Gpu));
}

#[test]
fn prefix_and_substring() {
    assert!(has_prefix("abc", ""));
    assert!(has_prefix("", ""));
    assert!(has_prefix("abc", "abc"));
    assert!(!has_prefix("ab", "abc"));
    assert!(has_substring("abc", ""));
    assert!(has_substring("", ""));
    assert!(has_substring("abcabd", "abd"));
    assert!(has_substring("abcabd", "cab"));
    assert!(!has_substring("abcabd", "abe"));
    assert!(has_substring("h\u{00E9}llo", "\u{00E9}l"));
    let texts = ["", "a", "ab", "aab", "abab", "gpugpu", "ggpu", "gp", "pug", "\u{00E9}gpu"];
    for text in texts {
        for pattern in texts {
            assert_eq!(has_prefix(text, pattern), text.starts_with(pattern), "{} {}", text, pattern);
            assert_eq!(has_substring(text, pattern), text.contains(pattern), "{} {}", text, pattern);
        }
    }
}

#[test]
fn characters_of_a_text() {
    assert_eq!(chars_of("a\u{00BA}C"), vec!['a', '\u{00BA}', 'C']);
    assert_eq!(chars_of(""), Vec::<char>::new());
}

fn marks(text: &str, numeric: &str) -> Vec<Marked> {
    text.chars()
        .zip(numeric.chars())
        .map(|(character, flag)| Marked { character, numeric: flag == '1' })
        .collect()
}

#[test]
fn ordinal_in_marked_characters() {
    assert_eq!(ordinal_in(&marks("Core 31 7", "000001101")), 31);
    assert_eq!(ordinal_in(&marks("Core", "0000")), 0);
    assert_eq!(ordinal_in(&Vec::new()), 0);
    assert_eq!(ordinal_in(&marks("42", "11")), 42);
    // The marks decide where the run begins and ends, not the characters.
    assert_eq!(ordinal_in(&marks("1234", "0110")), 23);
    assert_eq!(ordinal_in(&marks("12x4", "1111")), 0);
    assert_eq!(ordinal_in(&marks("ab", "11")), 0);
    assert_eq!(ordinal_in(&marks("7", "0")), 0);
}

#[test]
fn marking_follows_the_standard_library() {
    let chars = mark("a1\u{0663}\u{00B2} \u{00BD}x");
    let got: Vec<(char, bool)> = chars.iter().map(|m| (m.character, m.numeric)).collect();
    assert_eq!(
        got,
        vec![
            ('a', false),
            ('1', true),
            ('\u{0663}', true),
            ('\u{00B2}', true),
            (' ', false),
            ('\u{00BD}', true),
            ('x', false)
        ]
    );
    assert!(mark("").is_empty());
    for c in ['0', '9', 'a', '-', '\u{0663}', '\u{4E09}', '\u{2167}'] {
        let text = c.to_string();
        assert_eq!(mark(&text)[0].numeric, c.is_numeric());
    }
}
