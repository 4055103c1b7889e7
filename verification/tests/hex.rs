use sliglight::hex::{hex_input_is_sliceable, hex_string, parse_hex_color};
use sliglight::text::utf8_len_is;

#[test]
fn parses_plain_and_hash_prefixed() {
    assert_eq!(parse_hex_color("ff0000"), Ok((255, 0, 0)));
    assert_eq!(parse_hex_color("#00FF7f"), Ok((0, 255, 127)));
    assert_eq!(parse_hex_color("+f+f+f"), Ok((15, 15, 15)));
}

#[test]
fn length_error_names_the_input() {
    assert_eq!(
        parse_hex_color("#ff00"),
        Err("expected 6 hex digits, got 'ff00'".to_string())
    );
    assert_eq!(
        parse_hex_color("ff00000"),
        Err("expected 6 hex digits, got 'ff00000'".to_string())
    );
}

#[test]
fn bad_digit_error() {
    assert_eq!(
        parse_hex_color("gg0000"),
        Err("invalid digit found in string".to_string())
    );
    assert_eq!(
        parse_hex_color("ééé"),
        Err("invalid digit found in string".to_string())
    );
    assert_eq!(
        parse_hex_color("00-100"),
        Err("invalid digit found in string".to_string())
    );
}

#[test]
fn hex_string_round_trips() {
    assert_eq!(hex_string((255, 136, 0)), "FF8800");
    assert_eq!(hex_string((1, 2, 171)), "0102AB");
    for c in [(0, 0, 0), (255, 255, 255), (18, 52, 171)] {
        assert_eq!(parse_hex_color(&hex_string(c)), Ok(c));
    }
}

#[test]
fn sliceable_inputs() {
    assert!(hex_input_is_sliceable("ff0000"));
    assert!(hex_input_is_sliceable("#ff0000"));
    assert!(hex_input_is_sliceable("ééé"));
    assert!(hex_input_is_sliceable("ab"));
    assert!(!hex_input_is_sliceable("aéxyz"));
    assert!(!hex_input_is_sliceable("#aéxyz"));
}

#[test]
fn hex_text_round_trips_with_hash_and_lower_case() {
    for c in [(0, 0, 0), (255, 255, 255), (18, 52, 171), (160, 11, 239)] {
        let text = hex_string(c);
        assert_eq!(parse_hex_color(&format!("#{text}")), Ok(c));
        assert_eq!(parse_hex_color(&text.to_lowercase()), Ok(c));
        assert_eq!(parse_hex_color(&format!("#{}", text.to_lowercase())), Ok(c));
    }
}

#[test]
fn utf8_length_checks() {
    assert!(utf8_len_is("ff0000", 6));
    assert!(utf8_len_is("ééé", 6));
    assert!(!utf8_len_is("ab", 6));
    assert!(!utf8_len_is("ab", usize::MAX));
    assert!(utf8_len_is("", 0));
}
