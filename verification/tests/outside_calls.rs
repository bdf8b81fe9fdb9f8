//! Behaviour that rests on calls into outside code.
use tephra::ColumnMetrics;
use tephra::Pos;
use tephra::SourceText;
use tephra::SourceTextOwned;
use tephra::Span;
use tephra::SpanDisplay;
use tephra::message::MessageColor;
use tephra::metrics::char_display_width;
use tephra::paint::paint;
use tephra::paint::paint_bold;

#[test]
fn wide_characters_take_two_columns() {
    assert_eq!(char_display_width('a'), 1);
    assert_eq!(char_display_width('\u{65e5}'), 2);
    assert_eq!(char_display_width('\u{0301}'), 0);
    let metrics = ColumnMetrics::new();
    assert_eq!(metrics.next_position("\u{65e5}b", Pos::zero()), Some(Pos::new(3, 0, 2)));
}

#[test]
fn owned_source_text_keeps_its_text() {
    let owned = SourceTextOwned::new("abc\ndef".into());
    assert_eq!(owned.as_str(), "abc\ndef");
    let copy = SourceText::new("xyz").with_name("input.txt").to_owned();
    assert_eq!(copy.as_str(), "xyz");
    assert_eq!(copy.borrow().name(), Some("input.txt"));
}

#[test]
fn span_display_takes_the_source_name() {
    let source = SourceText::new("ab\ncd").with_name("input.txt");
    let span = Span::new_enclosing(Pos::new(0, 0, 0), Pos::new(2, 0, 2));
    let d = SpanDisplay::new(source, span);
    assert_eq!(d.source_name.as_deref(), Some("input.txt"));
}

#[test]
fn paint_without_color_is_padded_text() {
    colored::control::set_override(false);
    assert_eq!(paint("x", MessageColor::BrightRed, 3), "  x");
    assert_eq!(paint_bold("ab", MessageColor::BrightBlue, 0), "ab");
}

#[test]
fn paint_with_color_adds_escapes() {
    colored::control::set_override(true);
    let p = paint("x", MessageColor::BrightRed, 0);
    assert_ne!(p, "x");
    assert!(p.contains('x'));
    assert!(p.contains('\u{1b}'));
    let padded = paint("ab", MessageColor::BrightGreen, 4);
    assert!(padded.contains("  ab"));
    assert_ne!(padded, "  ab");
    let bold = paint_bold("-->", MessageColor::BrightBlue, 5);
    assert!(bold.contains("  -->"));
    assert_ne!(bold, "  -->");
}

#[test]
fn paint_with_color_wraps_the_padded_text_in_the_color_code() {
    colored::control::set_override(true);
    let r = paint("ab", MessageColor::BrightRed, 4);
    assert!(r == "\u{1b}[91m  ab\u{1b}[0m" || r == "  ab", "{:?}", r);
    let r = paint_bold("ab", MessageColor::BrightBlue, 3);
    assert!(r == "\u{1b}[1;94m ab\u{1b}[0m" || r == " ab", "{:?}", r);
    colored::control::set_override(false);
}
