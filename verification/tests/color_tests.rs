use iro::color::{ColorModifiers, HexColor, MOD_ONE};
use iro::parse_hex_color;

fn mods() -> ColorModifiers {
    ColorModifiers {
        alpha: None,
        lighten: None,
        darken: None,
        saturate: None,
        desaturate: None,
        hue_shift: None,
    }
}

#[test]
fn parses_six_digit_hex() {
    assert_eq!(parse_hex_color("#11aaff"), Some(HexColor([0x11, 0xaa, 0xff, 0xff])));
}

#[test]
fn parses_eight_digit_hex() {
    assert_eq!(parse_hex_color("#0f1e2d3c"), Some(HexColor([0x0f, 0x1e, 0x2d, 0x3c])));
}

#[test]
fn hex_parsing_is_case_insensitive() {
    assert_eq!(parse_hex_color("#AbCdEf"), parse_hex_color("#abcdef"));
    assert_eq!(parse_hex_color("#FF00FF00"), Some(HexColor([0xff, 0x00, 0xff, 0x00])));
}

#[test]
fn rejects_malformed_hex() {
    assert_eq!(parse_hex_color(""), None);
    assert_eq!(parse_hex_color("112233"), None);
    assert_eq!(parse_hex_color("#12345"), None);
    assert_eq!(parse_hex_color("#1234567"), None);
    assert_eq!(parse_hex_color("#gg0011"), None);
    assert_eq!(parse_hex_color("#11223g"), None);
}

#[test]
fn hex_string_is_lowercase_rrggbbaa() {
    let c = HexColor([0x0f, 0xaa, 0x01, 0xff]);
    assert_eq!(c.hex_string(), "#0faa01ff");
    let roundtrip = parse_hex_color(&c.hex_string()).unwrap();
    assert_eq!(roundtrip, c);
}

#[test]
fn empty_modifiers_are_identity() {
    let samples = [
        HexColor([0, 0, 0, 0]),
        HexColor([255, 255, 255, 255]),
        HexColor([1, 2, 3, 4]),
        HexColor([200, 100, 50, 25]),
    ];
    for c in samples {
        assert_eq!(c.apply_modifiers(mods()), c);
    }
}

#[test]
fn apply_modifiers_is_deterministic() {
    let c = HexColor([120, 45, 200, 130]);
    let m = ColorModifiers {
        alpha: Some(MOD_ONE / 2),
        lighten: Some(MOD_ONE / 4),
        darken: None,
        saturate: Some(MOD_ONE),
        desaturate: None,
        hue_shift: Some(30 * MOD_ONE as i64),
    };
    assert_eq!(c.apply_modifiers(m), c.apply_modifiers(m));
}

#[test]
fn alpha_scaling_from_channel_is_exact() {
    // A factor of a/255 units applied to a fully opaque color gives
    // back exactly the channel value a.
    for a in [0u8, 1, 7, 127, 128, 254, 255] {
        let m = ColorModifiers { alpha: Some(a as u32 * 1000), ..mods() };
        let out = HexColor([10, 20, 30, 255]).apply_modifiers(m);
        assert_eq!(out, HexColor([10, 20, 30, a]));
    }
}

#[test]
fn lighten_half_on_black_gives_mid_gray() {
    let m = ColorModifiers { lighten: Some(MOD_ONE / 2), ..mods() };
    let out = HexColor([0, 0, 0, 255]).apply_modifiers(m);
    assert_eq!(out, HexColor([127, 127, 127, 255]));
}

#[test]
fn extreme_lighten_saturates_to_white() {
    let m = ColorModifiers { lighten: Some(100 * MOD_ONE), ..mods() };
    let out = HexColor([12, 34, 56, 255]).apply_modifiers(m);
    assert_eq!(out, HexColor([255, 255, 255, 255]));
}

#[test]
fn extreme_darken_saturates_to_black() {
    let m = ColorModifiers { darken: Some(100 * MOD_ONE), ..mods() };
    let out = HexColor([212, 34, 99, 17]).apply_modifiers(m);
    assert_eq!(out, HexColor([0, 0, 0, 17]));
}

#[test]
fn hue_shift_full_turn_wraps() {
    let c = HexColor([200, 60, 60, 255]);
    let m = ColorModifiers { hue_shift: Some(360 * MOD_ONE as i64), ..mods() };
    let m0 = ColorModifiers { hue_shift: Some(0), ..mods() };
    assert_eq!(c.apply_modifiers(m), c.apply_modifiers(m0));
}

#[test]
fn negative_hue_shift_wraps_like_its_positive_complement() {
    let c = HexColor([10, 200, 90, 255]);
    let minus_quarter = ColorModifiers { hue_shift: Some(-90 * MOD_ONE as i64), ..mods() };
    let plus_three_quarters = ColorModifiers { hue_shift: Some(270 * MOD_ONE as i64), ..mods() };
    assert_eq!(
        c.apply_modifiers(minus_quarter),
        c.apply_modifiers(plus_three_quarters)
    );
}
