use homectrl::text::{hex_color_string, parse_hex_color, parse_i64, push_decimal, push_signed_decimal, str_eq};

#[test]
fn decimal_and_hex() {
    for n in [0u64, 7, 10, 1234567890, u64::MAX] {
        let mut s = "x".to_string();
        push_decimal(&mut s, n);
        assert_eq!(s, format!("x{}", n));
    }
    for n in [0i32, -1, 42, i32::MIN, i32::MAX] {
        let mut s = String::new();
        push_signed_decimal(&mut s, n);
        assert_eq!(s, n.to_string());
    }
    assert_eq!(hex_color_string([0, 171, 255]), "#00abff");
}

#[test]
fn hex_colors_parse_like_from_str_radix() {
    for s in ["#000000", "#FFffFF", "#+1+2+3", "#-10000", "#12345g", "#1234567", "123456", "#é1234"] {
        let expected = if s.len() == 7 && s.starts_with('#') && s.is_char_boundary(1) && s.is_char_boundary(3)
            && s.is_char_boundary(5)
        {
            match (
                u8::from_str_radix(&s[1..3], 16),
                u8::from_str_radix(&s[3..5], 16),
                u8::from_str_radix(&s[5..7], 16),
            ) {
                (Ok(r), Ok(g), Ok(b)) => Some([r, g, b]),
                _ => None,
            }
        } else {
            None
        };
        assert_eq!(parse_hex_color(s), expected, "{}", s);
    }
}

#[test]
fn integers_parse_like_std() {
    for s in [
        "0", "-0", "+5", "42", "-42", "9223372036854775807", "-9223372036854775808",
        "9223372036854775808", "-9223372036854775809", "", "-", "+", "1a", " 1", "007",
        "99999999999999999999999",
    ] {
        assert_eq!(parse_i64(s), s.parse::<i64>().ok(), "{}", s);
    }
}

#[test]
fn string_equality() {
    assert!(str_eq("abc", "abc"));
    assert!(!str_eq("abc", "abd"));
    assert!(!str_eq("ab", "abc"));
    assert!(str_eq("", ""));
}
