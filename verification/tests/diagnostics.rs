use nativum::error::Error;
use nativum::span::{line_col, Span};

#[test]
fn line_and_column_of_offsets() {
    let src = "ab\ncd\u{e9}f";
    assert_eq!(line_col(src, 0), (1, 1));
    assert_eq!(line_col(src, 2), (1, 3));
    assert_eq!(line_col(src, 3), (2, 1));
    // Columns count bytes: `é` is two bytes wide.
    assert_eq!(line_col(src, 7), (2, 5));
    // Offsets past the end clamp to the end.
    assert_eq!(line_col(src, 100), (2, 6));
}

#[test]
fn spans() {
    assert_eq!(Span::dummy(), Span { start: 0, end: 0, line: 1, column: 1 });
    assert_eq!(Span::at("x\ny", 2), Span { start: 2, end: 2, line: 2, column: 1 });
}

#[test]
fn located_errors_render_with_path() {
    let e = Error::at(3, 7, "boom");
    assert_eq!(e.describe(), "3:7: boom");
    let e = e.with_path("app.native".to_string());
    assert_eq!(e.describe(), "app.native:3:7: boom");
    let t = Error::Type("bad".to_string()).with_path("x".to_string());
    assert_eq!(t.describe(), "bad");
}
