use swap::text::{push_decimal, to_ascii_lower};

#[test]
fn ascii_letters_are_lowered_and_the_rest_is_kept() {
    assert_eq!(to_ascii_lower("ABCxyz234567=Z"), "abcxyz234567=z");
    assert_eq!(to_ascii_lower(""), "");
    assert_eq!(to_ascii_lower("@[`{AZ"), "@[`{az");
    assert_eq!(to_ascii_lower("ÄÖ É"), "ÄÖ É");
}

#[test]
fn decimal_notation_is_appended() {
    for (number, text) in [
        (0u16, "0"),
        (9, "9"),
        (10, "10"),
        (99, "99"),
        (100, "100"),
        (1024, "1024"),
        (60001, "60001"),
        (u16::MAX, "65535"),
    ] {
        let mut out = String::from("port ");
        push_decimal(&mut out, number);
        assert_eq!(out, format!("port {}", text));
    }
}
