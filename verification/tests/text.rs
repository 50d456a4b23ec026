//! Texts, orders and the bits of floating-point numbers.

use swarmkeeper::float_bits::{
    at_least_double, at_most_single, equal_double, is_finite_double, is_finite_single, key_of_double, key_of_single,
    less_double, less_single, DOUBLE_INFINITY, DOUBLE_ONE, SINGLE_ONE,
};
use swarmkeeper::lists::index_pairs;
use swarmkeeper::sorting::sort_strings;
use swarmkeeper::text::{
    chars_of, comes_before, concat2, concat3, contains, decimal_string, is_whitespace, join, parse_hex_digit,
    parse_unsigned, push_hex, push_signed, push_two_digits, same_text, split, starts_with, string_of,
    string_of_range, trim,
};

#[test]
fn numbers_are_written_in_decimal() {
    for n in [0u64, 7, 10, 999, 1000, u64::MAX] {
        assert_eq!(decimal_string(n), format!("{}", n));
    }
    for n in [0i64, -1, 42, i64::MIN, i64::MAX] {
        let mut s = String::new();
        push_signed(&mut s, n);
        assert_eq!(s, format!("{}", n));
    }
    let mut s = String::from("5:");
    push_two_digits(&mut s, 7);
    assert_eq!(s, "5:07");
}

#[test]
fn numbers_are_written_in_hexadecimal() {
    let mut s = String::new();
    push_hex(&mut s, 0x1a2b, 8, true);
    assert_eq!(s, "00001A2B");
    let mut s = String::new();
    push_hex(&mut s, 0xf, 2, false);
    assert_eq!(s, "0f");
}

#[test]
fn numbers_are_read_as_std_reads_them() {
    for s in ["0", "255", "256", "+7", "-1", "", "+", "12a", "000255", " 1", "99999999999999999999"] {
        let chars = chars_of(s);
        assert_eq!(parse_unsigned(&chars, 255), s.parse::<u8>().ok().map(|n| n as u64), "{}", s);
        assert_eq!(parse_unsigned(&chars, u64::MAX), s.parse::<u64>().ok(), "{}", s);
    }
    assert_eq!(parse_hex_digit('F'), Some(15));
    assert_eq!(parse_hex_digit('a'), Some(10));
    assert_eq!(parse_hex_digit('g'), None);
}

#[test]
fn white_space_is_that_of_std() {
    for code in 0..=0x10ffffu32 {
        if let Some(c) = char::from_u32(code) {
            assert_eq!(is_whitespace(c), c.is_whitespace(), "{:x}", code);
        }
    }
    assert_eq!(string_of(&trim(" \t a b\u{3000}\n")), "a b");
    assert_eq!(string_of(&trim("  ")), "");
}

#[test]
fn pieces_and_parts() {
    let parts: Vec<String> = split(&chars_of("a//b/"), '/').iter().map(|p| string_of(p)).collect();
    assert_eq!(parts, "a//b/".split('/').map(String::from).collect::<Vec<_>>());
    assert_eq!(join(&parts, "/"), "a//b/");
    assert_eq!(split(&chars_of(""), '/').len(), 1);
    assert!(starts_with(&chars_of("radio://0"), &chars_of("radio://")));
    assert!(!starts_with(&chars_of("rad"), &chars_of("radio://")));
    assert!(contains(&chars_of("stateEstimate.x"), &chars_of("mate.")));
    assert!(!contains(&chars_of("abc"), &chars_of("ac")));
    assert!(contains(&chars_of("abc"), &chars_of("")));
    assert!(same_text("σ", "σ"));
    assert!(!same_text("a", "ab"));
    assert_eq!(concat2("a", "b"), "ab");
    assert_eq!(concat3("a", "", "c"), "ac");
    assert_eq!(string_of_range(&chars_of("hello"), 1, 3), "el");
}

#[test]
fn texts_are_ordered_as_std_orders_them() {
    let words = ["", "a", "b", "ab", "aa", "B", "é", "z", "\u{10000}", "\u{ffff}"];
    for a in words {
        for b in words {
            assert_eq!(comes_before(&chars_of(a), &chars_of(b)), a < b, "{} {}", a, b);
        }
    }
    let mut sorted: Vec<String> = words.iter().map(|w| w.to_string()).collect();
    let ours = sort_strings(sorted.clone());
    sorted.sort();
    assert_eq!(ours, sorted);
}

#[test]
fn doubles_compare_by_their_bits() {
    let values = [
        0.0, -0.0, 1.0, -1.0, f64::MIN_POSITIVE, 5e-324, -5e-324, f64::MAX, f64::MIN, f64::INFINITY, f64::NEG_INFINITY,
        f64::NAN, -f64::NAN, 0.1,
    ];
    for a in values {
        assert_eq!(is_finite_double(a.to_bits()), a.is_finite());
        assert_eq!(key_of_double(a.to_bits()).is_none(), a.is_nan());
        for b in values {
            assert_eq!(less_double(a.to_bits(), b.to_bits()), a < b);
            assert_eq!(at_least_double(a.to_bits(), b.to_bits()), a >= b);
            assert_eq!(equal_double(a.to_bits(), b.to_bits()), a == b);
        }
    }
    assert_eq!(f64::from_bits(DOUBLE_ONE), 1.0);
    assert_eq!(f64::from_bits(DOUBLE_INFINITY), f64::INFINITY);
}

#[test]
fn singles_compare_by_their_bits() {
    let values =
        [0.0f32, -0.0, 1.0, -1.0, 1e-45, f32::MAX, f32::MIN, f32::INFINITY, f32::NEG_INFINITY, f32::NAN, -f32::NAN];
    for a in values {
        assert_eq!(is_finite_single(a.to_bits()), a.is_finite());
        assert_eq!(key_of_single(a.to_bits()).is_none(), a.is_nan());
        for b in values {
            assert_eq!(less_single(a.to_bits(), b.to_bits()), a < b);
            assert_eq!(at_most_single(a.to_bits(), b.to_bits()), a <= b);
        }
    }
    assert_eq!(f32::from_bits(SINGLE_ONE), 1.0);
}

#[test]
fn pairs_of_positions() {
    assert_eq!(index_pairs(4), vec![(0, 1), (0, 2), (0, 3), (1, 2), (1, 3), (2, 3)]);
    assert_eq!(index_pairs(1), vec![]);
    assert_eq!(index_pairs(0), vec![]);
}
