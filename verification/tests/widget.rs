use nativum::font::{glyph, glyph_index, push_broken, wrap_lines};
use nativum::numfmt::group_thousands;
use nativum::widget::{collapse_ws, kind_of, mix_u64, role_of, Align, WidgetKind};

#[test]
fn align_values() {
    assert_eq!(Align::parse("center"), Align::Center);
    assert_eq!(Align::parse("end"), Align::End);
    assert_eq!(Align::parse("stretch"), Align::Stretch);
    assert_eq!(Align::parse("start"), Align::Start);
    assert_eq!(Align::parse("middle"), Align::Start);
}

#[test]
fn kinds_and_roles() {
    assert_eq!(kind_of("radio-group"), WidgetKind::Row);
    assert_eq!(kind_of("dialog"), WidgetKind::Surface);
    assert_eq!(kind_of("switch"), WidgetKind::Checkbox);
    assert_eq!(kind_of("textarea"), WidgetKind::TextField);
    assert_eq!(kind_of("mystery"), WidgetKind::Column);
    assert_eq!(role_of(WidgetKind::TextField), "textbox");
    assert_eq!(role_of(WidgetKind::Progress), "progressbar");
    assert_eq!(role_of(WidgetKind::Stack), "group");
    assert_eq!(role_of(WidgetKind::Spacer), "none");
}

#[test]
fn whitespace_collapses() {
    assert_eq!(collapse_ws("  a \n\t b  c "), "a b c");
    assert_eq!(collapse_ws(""), "");
    assert_eq!(collapse_ws(" \n "), "");
    let once = collapse_ws(" x  y\u{2003}z ");
    assert_eq!(once, "x y z");
    assert_eq!(collapse_ws(&once), once);
}

#[test]
fn id_mixing() {
    assert_eq!(mix_u64(0, 1), 0x9E37_79B9_7F4A_7C15);
    assert_eq!(mix_u64(5, 0), 5);
    assert_eq!(mix_u64(1, 2), 1 ^ 0x9E37_79B9_7F4A_7C15u64.wrapping_mul(2));
}

#[test]
fn glyphs() {
    assert_eq!(glyph_index('A'), 65);
    assert_eq!(glyph_index('\u{00D7}'), b'x' as usize);
    assert_eq!(glyph_index('\u{2014}'), b'-' as usize);
    assert_eq!(glyph_index('\u{201C}'), b'"' as usize);
    assert_eq!(glyph_index('\u{4E2D}'), b'?' as usize);
}

#[test]
fn word_wrap() {
    assert_eq!(wrap_lines("the quick brown fox", 10), vec!["the quick", "brown fox"]);
    assert_eq!(wrap_lines("abcdefghij kl", 4), vec!["abcd", "efgh", "ij", "kl"]);
    assert_eq!(wrap_lines("   ", 4), Vec::<String>::new());
    assert_eq!(wrap_lines("a b c", 1), vec!["a", "b", "c"]);
    for line in wrap_lines("lorem ipsum dolor sit amet consectetur", 7) {
        assert!(!line.is_empty() && line.chars().count() <= 7, "{line}");
    }
}

#[test]
fn broken_words() {
    let mut lines = Vec::new();
    let mut current = String::new();
    push_broken(&['a', 'b', 'c', 'd', 'e'], 2, &mut lines, &mut current);
    assert_eq!(lines, vec!["ab", "cd"]);
    assert_eq!(current, "e");
    let mut lines = Vec::new();
    push_broken(&['o', 'k'], 2, &mut lines, &mut current);
    assert!(lines.is_empty());
    assert_eq!(current, "ok");
}

#[test]
fn thousands_grouping() {
    assert_eq!(group_thousands(0), "0");
    assert_eq!(group_thousands(999), "999");
    assert_eq!(group_thousands(1000), "1,000");
    assert_eq!(group_thousands(-1234567), "-1,234,567");
    assert_eq!(group_thousands(i64::MAX), "9,223,372,036,854,775,807");
}

#[test]
fn grouping_only_inserts_commas() {
    for n in [0i64, 7, 12_345, -987_654_321, 1_000_000_000_000] {
        let grouped = group_thousands(n);
        let plain: String = grouped.chars().filter(|c| *c != ',').collect();
        assert_eq!(plain, n.to_string());
    }
}

#[test]
fn glyph_rows_come_from_the_font() {
    assert_eq!(glyph('A'), [0x0C, 0x1E, 0x33, 0x33, 0x3F, 0x33, 0x33, 0x00]);
    assert_eq!(glyph(' '), [0; 8]);
    assert_eq!(glyph('\u{00D7}'), glyph('x'));
    assert_eq!(glyph('\u{4E2D}'), glyph('?'));
    assert_ne!(glyph('x'), glyph('?'));
}

#[test]
fn wrapping_keeps_every_character() {
    let text = "  a verylongwordindeed   fits\tnowhere  at all ";
    for max in 1..12 {
        let lines = wrap_lines(text, max);
        let kept: String = lines.concat().chars().filter(|c| !c.is_whitespace()).collect();
        let original: String = text.chars().filter(|c| !c.is_whitespace()).collect();
        assert_eq!(kept, original, "max {max}");
    }
}
