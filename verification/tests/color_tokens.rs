use nativum::color::Color;
use nativum::tokens::{tokens_for, Appearance, RadiusToken};

#[test]
fn parse_hex() {
    assert_eq!(Color::parse("#abc"), Some(Color::rgb(0xAA, 0xBB, 0xCC)));
    assert_eq!(Color::parse("#112233"), Some(Color::rgb(0x11, 0x22, 0x33)));
}

#[test]
fn parse_hex_with_alpha() {
    assert_eq!(
        Color::parse("#11223344"),
        Some(Color { r: 0x11, g: 0x22, b: 0x33, a: 0x44 })
    );
}

#[test]
fn parse_without_hash() {
    assert_eq!(Color::parse("ff0000"), Some(Color::rgb(255, 0, 0)));
}

#[test]
fn parse_rejects_bad_input() {
    assert_eq!(Color::parse("#12"), None);
    assert_eq!(Color::parse("#12345"), None);
    assert_eq!(Color::parse("#ggg"), None);
    assert_eq!(Color::parse(""), None);
    assert_eq!(Color::parse("#\u{e9}a"), None);
    assert_eq!(Color::parse("#+ab"), None);
    assert_eq!(Color::parse("+abcde"), None);
}

#[test]
fn transparent_is_all_zero() {
    assert_eq!(Color::transparent(), Color { r: 0, g: 0, b: 0, a: 0 });
}

#[test]
fn token_lookup_by_name() {
    let light = tokens_for(Appearance::Light);
    assert_eq!(light.color("accent"), Some(Color::rgb(0x2A, 0x62, 0xD6)));
    assert_eq!(light.color("accent-foreground"), Some(Color::rgb(0xFF, 0xFF, 0xFF)));
    assert_eq!(light.color("success_text"), light.color("text"));
    assert_eq!(light.color("transparent"), Some(Color::transparent()));
    assert_eq!(light.color("nope"), None);
    let dark = tokens_for(Appearance::Dark);
    assert_eq!(dark.color("background"), Some(Color::rgb(0x14, 0x14, 0x12)));
    assert_eq!(dark.color("scrim"), Some(Color { r: 0, g: 0, b: 0, a: 140 }));
}

#[test]
fn radius_tokens() {
    assert_eq!(RadiusToken::parse("sm"), Some(RadiusToken::Sm));
    assert_eq!(RadiusToken::parse("xl"), Some(RadiusToken::Xl));
    assert_eq!(RadiusToken::parse("none"), Some(RadiusToken::Zero));
    assert_eq!(RadiusToken::parse("0"), Some(RadiusToken::Zero));
    assert_eq!(RadiusToken::parse("huge"), None);
}

#[test]
fn short_hex_is_doubled_long_hex() {
    assert_eq!(Color::parse("#abc"), Color::parse("#aabbcc"));
    assert_eq!(Color::parse("#F0a"), Color::parse("#FF00aa"));
}

#[test]
fn token_names_resolve_in_both_palettes() {
    let light = tokens_for(Appearance::Light);
    let dark = tokens_for(Appearance::Dark);
    for name in [
        "background", "surface", "surface_subtle", "surface_pressed", "text", "text_muted",
        "border", "accent", "accent_text", "accent-foreground", "destructive",
        "destructive_text", "success", "success_text", "warning", "warning_text", "info",
        "info_text", "focus_ring", "focus-ring", "shadow", "scrim", "disabled", "transparent",
        "mauve", "",
    ] {
        assert_eq!(light.color(name).is_some(), dark.color(name).is_some(), "{name}");
    }
}
