//! Parsing: colors, integers, booleans, decimal numbers, and the
//! round trip between color parsing and re-encoding.

use constellation_cursor::parse::{
    encode_color, parse_bool, parse_color, parse_fixed, parse_int,
};

#[test]
fn color_six_digits_is_opaque() {
    let content = "\"fill\": \"#AABBCC\"";
    assert_eq!(parse_color(content, "fill"), Some(0xFFAABBCC));
}

#[test]
fn color_eight_digits_carries_alpha() {
    let content = "\"outline\": \"#80FF0010\"";
    assert_eq!(parse_color(content, "outline"), Some(0x80FF0010));
}

#[test]
fn color_seven_digits_uses_first_six() {
    let content = "\"fill\": \"#AABBCCD\"";
    assert_eq!(parse_color(content, "fill"), Some(0xFFAABBCC));
}

#[test]
fn color_too_short_is_nothing() {
    assert_eq!(parse_color("\"fill\": \"#ABC\"", "fill"), None);
}

#[test]
fn color_missing_key_is_nothing() {
    assert_eq!(parse_color("\"fill\": \"#AABBCC\"", "outline"), None);
}

#[test]
fn color_lower_case_digits_parse() {
    assert_eq!(parse_color("\"fill\": \"#aabbcc\"", "fill"), Some(0xFFAABBCC));
}

#[test]
fn color_round_trip_with_alpha() {
    let colors = [0x80FF0010u32, 0x00000000, 0xFFFFFFFF, 0x01234567, 0xDEADBEEF];
    for &c in colors.iter() {
        let digits = encode_color(c, true);
        let mut content = String::from("\"fill\": \"#");
        for b in digits.iter() {
            content.push(*b as char);
        }
        content.push('"');
        assert_eq!(parse_color(&content, "fill"), Some(c));
    }
}

#[test]
fn color_round_trip_without_alpha() {
    let colors = [0xFFAABBCCu32, 0xFF000000, 0xFFFFFFFF, 0xFF123456];
    for &c in colors.iter() {
        let digits = encode_color(c, false);
        assert_eq!(digits.len(), 6);
        let mut content = String::from("\"shadow\": \"#");
        for b in digits.iter() {
            content.push(*b as char);
        }
        content.push('"');
        assert_eq!(parse_color(&content, "shadow"), Some(c));
    }
}

#[test]
fn int_plain_and_negative() {
    assert_eq!(parse_int("\"passthroughTo\": 3", "passthroughTo"), Some(3));
    assert_eq!(parse_int("\"passthroughTo\": -1", "passthroughTo"), Some(-1));
    assert_eq!(parse_int("\"n\": 007", "n"), Some(7));
}

#[test]
fn int_rejects_malformed_runs() {
    assert_eq!(parse_int("\"n\": -", "n"), None);
    assert_eq!(parse_int("\"n\": 1-2", "n"), None);
    assert_eq!(parse_int("\"n\": x", "n"), None);
    assert_eq!(parse_int("\"m\": 3", "n"), None);
}

#[test]
fn int_range_limits() {
    assert_eq!(parse_int("\"n\": 2147483647", "n"), Some(2147483647));
    assert_eq!(parse_int("\"n\": 2147483648", "n"), None);
    assert_eq!(parse_int("\"n\": -2147483648", "n"), Some(-2147483648));
    assert_eq!(parse_int("\"n\": -2147483649", "n"), None);
    assert_eq!(parse_int("\"n\": 99999999999999999999", "n"), None);
}

#[test]
fn bool_words() {
    assert_eq!(parse_bool("\"blurOutline\": true", "blurOutline"), Some(true));
    assert_eq!(parse_bool("\"blurOutline\":false", "blurOutline"), Some(false));
    assert_eq!(parse_bool("\"blurOutline\": yes", "blurOutline"), None);
    assert_eq!(parse_bool("\"other\": true", "blurOutline"), None);
}

#[test]
fn fixed_reads_halves_exactly() {
    assert_eq!(parse_fixed("\"scale\": 1.5", "scale"), Some(384));
    assert_eq!(parse_fixed("\"scale\": -2.25", "scale"), Some(-576));
    assert_eq!(parse_fixed("\"scale\": 3", "scale"), Some(768));
    assert_eq!(parse_fixed("\"scale\": 0.5", "scale"), Some(128));
}

#[test]
fn fixed_rejects_malformed_numbers() {
    assert_eq!(parse_fixed("\"scale\": 1.2.3", "scale"), None);
    assert_eq!(parse_fixed("\"scale\": -", "scale"), None);
    assert_eq!(parse_fixed("\"scale\": .", "scale"), None);
    assert_eq!(parse_fixed("\"scale\": abc", "scale"), None);
}

#[test]
fn fixed_accepts_bare_fraction_forms() {
    assert_eq!(parse_fixed("\"x\": .5", "x"), Some(128));
    assert_eq!(parse_fixed("\"x\": 2.", "x"), Some(512));
}
