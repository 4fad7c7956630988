use doc_ledger::text::append_decimal;
use doc_ledger::text::append_signed_decimal;
use doc_ledger::text::bytes_equal;
use doc_ledger::text::bytes_less;
use doc_ledger::text::copy_strings;
use doc_ledger::text::text_equal;
use doc_ledger::text::text_less;

fn decimal_of(n: u64) -> String {
    let mut out = String::new();
    append_decimal(&mut out, n);
    out
}

fn signed_decimal_of(i: i64) -> String {
    let mut out = String::new();
    append_signed_decimal(&mut out, i);
    out
}

#[test]
fn decimal_of_small_numbers() {
    assert_eq!(decimal_of(0), "0");
    assert_eq!(decimal_of(7), "7");
    assert_eq!(decimal_of(9), "9");
    assert_eq!(decimal_of(10), "10");
    assert_eq!(decimal_of(99), "99");
    assert_eq!(decimal_of(100), "100");
    assert_eq!(decimal_of(1205), "1205");
}

#[test]
fn decimal_of_largest_number() {
    assert_eq!(decimal_of(u64::MAX), "18446744073709551615");
}

#[test]
fn decimal_matches_std_formatting() {
    let mut n: u64 = 1;
    for _ in 0..19 {
        assert_eq!(decimal_of(n), format!("{}", n));
        assert_eq!(decimal_of(n - 1), format!("{}", n - 1));
        n *= 10;
    }
}

#[test]
fn append_decimal_keeps_what_was_there() {
    let mut out = String::from("block ");
    append_decimal(&mut out, 42);
    append_decimal(&mut out, 0);
    assert_eq!(out, "block 420");
}

#[test]
fn signed_decimal_of_negative_numbers() {
    assert_eq!(signed_decimal_of(-1), "-1");
    assert_eq!(signed_decimal_of(-120), "-120");
    assert_eq!(signed_decimal_of(i64::MIN), "-9223372036854775808");
    assert_eq!(signed_decimal_of(i64::MIN + 1), "-9223372036854775807");
}

#[test]
fn signed_decimal_of_non_negative_numbers() {
    assert_eq!(signed_decimal_of(0), "0");
    assert_eq!(signed_decimal_of(1700000000), "1700000000");
    assert_eq!(signed_decimal_of(i64::MAX), "9223372036854775807");
}

#[test]
fn append_signed_decimal_keeps_what_was_there() {
    let mut out = String::from("t=");
    append_signed_decimal(&mut out, -5);
    assert_eq!(out, "t=-5");
}

#[test]
fn bytes_less_decides_at_first_difference() {
    assert!(bytes_less(&[1, 2], &[1, 3]));
    assert!(!bytes_less(&[1, 3], &[1, 2]));
    assert!(bytes_less(&[1, 200], &[2, 0]));
    assert!(bytes_less(&[0, 255, 255], &[1]));
}

#[test]
fn bytes_less_puts_a_proper_prefix_first() {
    assert!(bytes_less(&[], &[0]));
    assert!(bytes_less(&[1, 2], &[1, 2, 0]));
    assert!(!bytes_less(&[1, 2, 0], &[1, 2]));
}

#[test]
fn bytes_less_is_strict() {
    assert!(!bytes_less(&[], &[]));
    assert!(!bytes_less(&[5, 6, 7], &[5, 6, 7]));
}

#[test]
fn text_less_agrees_with_str_order() {
    let samples = [
        "", "0", "00", "1", "10", "2", "a", "ab", "abc", "b", "B", "fb8e", "355b", "\u{e9}", "z",
        "\u{10348}", "\u{ffff}",
    ];
    for a in samples {
        for b in samples {
            assert_eq!(text_less(a, b), a < b, "{:?} < {:?}", a, b);
        }
    }
}

#[test]
fn text_equal_agrees_with_str_equality() {
    let samples = ["", "a", "ab", "ba", "abc", "ab\u{e9}", "ab\u{e8}"];
    for a in samples {
        for b in samples {
            assert_eq!(text_equal(a, b), a == b, "{:?} == {:?}", a, b);
        }
    }
}

#[test]
fn bytes_equal_compares_length_and_content() {
    assert!(bytes_equal(&[], &[]));
    assert!(bytes_equal(&[1, 2, 3], &[1, 2, 3]));
    assert!(!bytes_equal(&[1, 2, 3], &[1, 2]));
    assert!(!bytes_equal(&[1, 2], &[1, 2, 3]));
    assert!(!bytes_equal(&[1, 2, 3], &[1, 2, 4]));
    assert!(!bytes_equal(&[0, 2, 3], &[1, 2, 3]));
}

#[test]
fn copy_strings_copies_in_order() {
    let strings = vec![String::from("x"), String::new(), String::from("yz")];
    assert_eq!(copy_strings(&strings), strings);
    assert_eq!(copy_strings(&Vec::new()), Vec::<String>::new());
}
