use jrn::text::{append_decimal, append_padded, chars_of, parse_number, same_text};

#[test]
fn characters_come_out_one_by_one() {
    assert_eq!(chars_of(""), Vec::<char>::new());
    assert_eq!(chars_of("a-é"), vec!['a', '-', 'é']);
}

#[test]
fn number_is_read_between_two_positions() {
    let chars = chars_of("ab123cd");
    assert_eq!(parse_number(&chars, 2, 5, 255), Some(123));
    assert_eq!(parse_number(&chars, 2, 4, 255), Some(12));
    assert_eq!(parse_number(&chars, 1, 5, 255), None);
    assert_eq!(parse_number(&chars, 2, 6, 255), None);
    assert_eq!(parse_number(&chars, 3, 3, 255), None);
}

#[test]
fn number_may_carry_a_plus_sign_but_needs_a_digit() {
    let plus = chars_of("+42");
    assert_eq!(parse_number(&plus, 0, 3, 255), Some(42));
    assert_eq!(parse_number(&plus, 0, 1, 255), None);
    let twice = chars_of("++4");
    assert_eq!(parse_number(&twice, 0, 3, 255), None);
    let minus = chars_of("-4");
    assert_eq!(parse_number(&minus, 0, 2, 255), None);
    let wide = chars_of("４");
    assert_eq!(parse_number(&wide, 0, 1, 255), None);
}

#[test]
fn number_above_the_limit_is_refused() {
    let chars = chars_of("256");
    assert_eq!(parse_number(&chars, 0, 3, 255), None);
    assert_eq!(parse_number(&chars, 0, 3, 256), Some(256));
    let zeros = chars_of("000000000000000000000000000000000000000000255");
    assert_eq!(parse_number(&zeros, 0, zeros.len(), 255), Some(255));
    let max = chars_of("340282366920938463463374607431768211455");
    assert_eq!(parse_number(&max, 0, max.len(), u128::MAX), Some(u128::MAX));
    let over = chars_of("340282366920938463463374607431768211456");
    assert_eq!(parse_number(&over, 0, over.len(), u128::MAX), None);
    let zero = chars_of("0");
    assert_eq!(parse_number(&zero, 0, 1, 0), Some(0));
    let one = chars_of("1");
    assert_eq!(parse_number(&one, 0, 1, 0), None);
}

#[test]
fn digits_are_written_behind_the_text() {
    let mut out = String::from("n=");
    append_decimal(&mut out, 0);
    assert_eq!(out, "n=0");
    append_decimal(&mut out, 907);
    assert_eq!(out, "n=0907");
    let mut max = String::new();
    append_decimal(&mut max, u64::MAX);
    assert_eq!(max, "18446744073709551615");
}

#[test]
fn padded_digits_fill_two_places() {
    let mut out = String::new();
    append_padded(&mut out, 0);
    append_padded(&mut out, 7);
    append_padded(&mut out, 10);
    append_padded(&mut out, 123);
    assert_eq!(out, "000710123");
}

#[test]
fn texts_are_compared_by_their_characters() {
    assert!(same_text("", ""));
    assert!(same_text("abc", "abc"));
    assert!(!same_text("abc", "abd"));
    assert!(!same_text("abc", "ab"));
}
