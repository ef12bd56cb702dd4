use db_cli::ansi::push_csi;
use db_cli::text::{
    bytes_in, char_count, chars_of, is_control, is_whitespace, joined, push_decimal, push_padded,
    push_repeated, same_text, starts_with, string_of, substring, to_ascii_lowercase,
    to_ascii_uppercase, trim_start_at, trimmed, trimmed_end_matches,
};

#[test]
fn white_space_is_that_of_std() {
    for c in '\0'..=char::MAX {
        assert_eq!(is_whitespace(c), c.is_whitespace(), "{:?}", c);
    }
}

#[test]
fn control_characters_are_those_of_std() {
    for c in '\0'..=char::MAX {
        assert_eq!(is_control(c), c.is_control(), "{:?}", c);
    }
}

const SAMPLES: [&str; 9] =
    ["", " ", "a", "  a b ", "\u{a0}x\u{2003}", "a;;", ";", "; ;", "größe\u{3000}"];

#[test]
fn trimming_is_that_of_std() {
    for s in SAMPLES {
        assert_eq!(trimmed(s), s.trim());
        assert_eq!(trimmed_end_matches(s, ';'), s.trim_end_matches(';'));
        let at = trim_start_at(&chars_of(s));
        assert_eq!(s.chars().skip(at).collect::<String>(), s.trim_start());
    }
}

#[test]
fn counts_are_those_of_std() {
    for s in SAMPLES {
        assert_eq!(bytes_in(s), s.len());
        assert_eq!(char_count(s), s.chars().count());
        assert_eq!(string_of(&chars_of(s)), s);
    }
    assert_eq!(char_count("größe"), 5);
    assert_eq!(bytes_in("größe"), 7);
}

#[test]
fn ascii_case_is_that_of_std() {
    for s in ["", "aZ@[`{é", "Größe"] {
        assert_eq!(to_ascii_lowercase(s), s.to_ascii_lowercase());
        assert_eq!(to_ascii_uppercase(s), s.to_ascii_uppercase());
    }
}

#[test]
fn comparisons_are_those_of_std() {
    for a in ["", "a", "ab", "abc", "b"] {
        for b in ["", "a", "ab", "abc", "b"] {
            assert_eq!(same_text(a, b), a == b);
            assert_eq!(starts_with(a, b), a.starts_with(b));
        }
    }
}

#[test]
fn parts_of_a_string() {
    assert_eq!(substring(&chars_of("größe"), 1, 4), "röß");
    let parts = ["a".to_string(), "".to_string(), "b".to_string()];
    assert_eq!(joined(&parts, ", "), "a, , b");
    assert_eq!(joined(&[], ", "), "");
}

#[test]
fn numbers_are_decimal() {
    for n in [0, 7, 10, 99, 100, 1203, usize::MAX] {
        let mut out = String::from("n=");
        push_decimal(&mut out, n);
        assert_eq!(out, format!("n={}", n));
    }
}

#[test]
fn padding_counts_characters() {
    let mut out = String::new();
    push_padded(&mut out, "é", 3);
    out.push('|');
    push_padded(&mut out, "abcd", 3);
    push_repeated(&mut out, '-', 2);
    assert_eq!(out, format!("{:3}|{:3}--", "é", "abcd"));
}

#[test]
fn control_sequences_are_left_out_for_zero() {
    let mut out = String::new();
    push_csi(&mut out, 0, 'A');
    assert_eq!(out, "");
    push_csi(&mut out, 12, 'C');
    assert_eq!(out, "\x1b[12C");
}
