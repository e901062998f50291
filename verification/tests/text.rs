use gamepad_tester::text::{
    chars_eq, chars_of, contains_chars, parse_i32, push_decimal, string_of, text_eq,
};

#[test]
fn parse_i32_accepts_what_str_parse_accepts() {
    let cases = [
        "42", "-7", "+9", "", "-", "+", "2147483647", "2147483648", "-2147483648",
        "-2147483649", " 1", "1 ", "1a", "007", "0", "-0", "+-1", "--1", "99999999999999999999",
        "١",
    ];
    for c in cases {
        assert_eq!(parse_i32(c), c.parse::<i32>().ok(), "input {:?}", c);
    }
}

#[test]
fn parse_i32_examples() {
    assert_eq!(parse_i32("42"), Some(42));
    assert_eq!(parse_i32("-2147483648"), Some(i32::MIN));
    assert_eq!(parse_i32("2147483647"), Some(i32::MAX));
    assert_eq!(parse_i32("2147483648"), None);
    assert_eq!(parse_i32(""), None);
    assert_eq!(parse_i32("x"), None);
}

#[test]
fn text_equality_and_containment() {
    assert!(text_eq("Xbox", "Xbox"));
    assert!(!text_eq("Xbox", "XBox"));
    assert!(!text_eq("Xbox", "Xbox "));
    let hay = chars_of("Xbox Wireless Controller");
    assert!(contains_chars(&hay, &chars_of("Wireless")));
    assert!(contains_chars(&hay, &chars_of("")));
    assert!(contains_chars(&hay, &chars_of("Controller")));
    assert!(!contains_chars(&hay, &chars_of("controller")));
    assert!(!contains_chars(&chars_of("ab"), &chars_of("abc")));
    assert!(chars_eq(&chars_of("ünï"), &chars_of("ünï")));
    assert_eq!(string_of(&chars_of("ünïcode")), "ünïcode");
}

#[test]
fn decimal_text_matches_display() {
    for n in [0usize, 7, 10, 99, 100, 12345, usize::MAX] {
        let mut s = String::from("#");
        push_decimal(&mut s, n);
        assert_eq!(s, format!("#{}", n));
    }
}
