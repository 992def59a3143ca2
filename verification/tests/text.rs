use mush::engine::text::{
    decimal_digits, push_chars, push_decimal_left_aligned, push_decimal_zero_padded,
    push_repeated,
};

fn digits(n: u64) -> String {
    decimal_digits(n).into_iter().collect()
}

#[test]
fn decimal_digits_of_numbers() {
    assert_eq!(digits(0), "0");
    assert_eq!(digits(7), "7");
    assert_eq!(digits(10), "10");
    assert_eq!(digits(120), "120");
    assert_eq!(digits(9007), "9007");
    assert_eq!(digits(u64::MAX), "18446744073709551615");
}

#[test]
fn repeated_characters_are_appended() {
    let mut out = "ab".to_string();
    push_repeated(&mut out, '-', 3);
    assert_eq!(out, "ab---");
    push_repeated(&mut out, '+', 0);
    assert_eq!(out, "ab---");
}

#[test]
fn characters_are_appended_in_order() {
    let mut out = "x".to_string();
    push_chars(&mut out, &vec!['a', 'é', 'c']);
    assert_eq!(out, "xaéc");
    push_chars(&mut out, &vec![]);
    assert_eq!(out, "xaéc");
}

#[test]
fn left_aligned_numbers() {
    let mut out = "<".to_string();
    push_decimal_left_aligned(&mut out, 42, 5);
    out.push('>');
    assert_eq!(out, "<42   >");
    let mut out = String::new();
    push_decimal_left_aligned(&mut out, 12345, 5);
    assert_eq!(out, "12345");
    push_decimal_left_aligned(&mut out, 678, 2);
    assert_eq!(out, "12345678");
    push_decimal_left_aligned(&mut out, 0, 0);
    assert_eq!(out, "123456780");
}

#[test]
fn zero_padded_numbers() {
    let mut out = "E".to_string();
    push_decimal_zero_padded(&mut out, 42, 4);
    assert_eq!(out, "E0042");
    let mut out = String::new();
    push_decimal_zero_padded(&mut out, 0, 3);
    assert_eq!(out, "000");
    let mut out = String::new();
    push_decimal_zero_padded(&mut out, 12345, 4);
    assert_eq!(out, "12345");
}
