use ullis::text::{
    chars_of, find_chars, find_text, has_suffix, len_bytes, matches_at, parse_number, push_decimal,
    same_text, strip_prefix, trim, white,
};

#[test]
fn texts_are_searched_and_trimmed() {
    assert_eq!(find_text("a<|b|>", "<|"), Some(1));
    assert_eq!(find_text("abc", "x"), None);
    assert_eq!(find_text("abc", ""), Some(0));
    let text = chars_of("hallo");
    assert_eq!(find_chars(&text, &chars_of("ll")), Some(2));
    assert!(matches_at(&text, &chars_of("lo"), 3));
    assert_eq!(trim(" \t x y \n"), "x y");
    assert_eq!(strip_prefix("/temp 1", "/temp"), Some(" 1"));
    assert_eq!(strip_prefix("/t", "/temp"), None);
    assert!(has_suffix("a.bin", ".bin"));
    assert!(same_text("a", "a") && !same_text("a", "b"));
    assert!(white(' ') && white('\u{a0}') && !white('x'));
    assert_eq!(len_bytes("é"), 2);
}

#[test]
fn numbers_are_written_and_read() {
    let mut out = "n=".to_string();
    push_decimal(&mut out, u64::MAX);
    assert_eq!(out, "n=18446744073709551615");
    assert_eq!(parse_number("120"), Some(120));
    assert_eq!(parse_number("+7"), Some(7));
    assert_eq!(parse_number("-7"), None);
    assert_eq!(parse_number(""), None);
    assert_eq!(parse_number("99999999999999999999999"), None);
}
