//! Line starts after two-byte line endings, tabs that start a line, empty
//! texts that start elsewhere, the pieces left by removing a span, and the
//! line count of a span.
use tephra::ColumnMetrics;
use tephra::LineEnding;
use tephra::MessageType;
use tephra::Note;
use tephra::Pos;
use tephra::SourceText;
use tephra::Span;

#[test]
fn line_start_follows_a_crlf_line_ending() {
    let m = ColumnMetrics::new().with_line_ending(LineEnding::CrLf);
    assert_eq!(m.line_start_position("ab\r\ncd", Pos::new(5, 1, 1)), Pos::new(4, 1, 0));
    assert_eq!(m.line_start_position("ab\r\ncd", Pos::new(4, 1, 0)), Pos::new(4, 1, 0));
    assert_eq!(m.line_start_position("ab\r\ncd", Pos::new(1, 0, 1)), Pos::new(0, 0, 0));
}

#[test]
fn line_start_follows_a_lf_line_ending() {
    let m = ColumnMetrics::new();
    assert_eq!(m.line_start_position("ab\ncd", Pos::new(4, 1, 1)), Pos::new(3, 1, 0));
}

#[test]
fn previous_position_of_a_tab_that_starts_the_line() {
    let m = ColumnMetrics::new();
    assert_eq!(m.previous_position("\ta", Pos::new(1, 0, 4)), Some(Pos::new(0, 0, 0)));
    assert_eq!(m.previous_position("x\n\ta", Pos::new(3, 1, 4)), Some(Pos::new(2, 1, 0)));
}

#[test]
fn empty_text_ends_where_it_starts() {
    let source = SourceText::new("").with_start_position(Pos::new(100, 10, 10));
    assert_eq!(source.end_position(), Pos::new(100, 10, 10));
    assert_eq!(source.end_position(), source.start_position());
}

#[test]
fn text_on_one_line_ends_after_its_columns() {
    let source = SourceText::new("abc").with_start_position(Pos::new(100, 10, 10));
    assert_eq!(source.end_position(), Pos::new(103, 10, 13));
}

#[test]
fn minus_a_later_span_keeps_the_whole_span() {
    let a = Span::new_enclosing(Pos::new(0, 0, 0), Pos::new(5, 0, 5));
    let b = Span::new_enclosing(Pos::new(10, 0, 10), Pos::new(15, 0, 15));
    let mut parts = a.minus(b);
    assert_eq!(parts.next(), Some(a));
    assert_eq!(parts.next(), None);
}

#[test]
fn minus_an_earlier_span_keeps_the_whole_span() {
    let a = Span::new_enclosing(Pos::new(10, 0, 10), Pos::new(15, 0, 15));
    let b = Span::new_enclosing(Pos::new(0, 0, 0), Pos::new(5, 0, 5));
    let mut parts = a.minus(b);
    assert_eq!(parts.next(), Some(a));
    assert_eq!(parts.next(), None);
}

#[test]
fn minus_a_covering_span_leaves_nothing() {
    let a = Span::new_enclosing(Pos::new(3, 0, 3), Pos::new(5, 0, 5));
    let b = Span::new_enclosing(Pos::new(0, 0, 0), Pos::new(9, 0, 9));
    let mut parts = a.minus(b);
    assert_eq!(parts.next(), None);
}

#[test]
fn minus_an_inner_span_leaves_both_sides() {
    let a = Span::new_enclosing(Pos::new(0, 0, 0), Pos::new(9, 0, 9));
    let b = Span::new_enclosing(Pos::new(3, 0, 3), Pos::new(5, 0, 5));
    let mut parts = a.minus(b);
    assert_eq!(parts.next(), Some(Span::new_enclosing(Pos::new(0, 0, 0), Pos::new(3, 0, 3))));
    assert_eq!(parts.next(), Some(Span::new_enclosing(Pos::new(5, 0, 5), Pos::new(9, 0, 9))));
    assert_eq!(parts.next(), None);
}

#[test]
fn split_lines_len_counts_the_lines_to_come() {
    let source = SourceText::new("abcd");
    let mut lines = source.full_span().split_lines(source);
    assert_eq!(lines.len(), 1);
    assert!(lines.next().is_some());
    assert_eq!(lines.len(), 0);
    assert!(lines.next().is_none());

    let source = SourceText::new("ab\ncd\nef");
    let mut lines = source.full_span().split_lines(source);
    assert_eq!(lines.len(), 3);
    let mut n = 0;
    while lines.next().is_some() {
        n += 1;
    }
    assert_eq!(n, 3);
    assert_eq!(lines.len(), 0);
}

#[test]
fn note_text_comes_last_with_or_without_color() {
    let note = Note::new(MessageType::Error, "bad token".to_owned());
    let mut plain = String::from(">");
    note.write_with_color_enablement(&mut plain, false);
    assert_eq!(plain, ">error: bad token");
    let mut colored = String::from(">");
    note.write_with_color_enablement(&mut colored, true);
    assert!(colored.starts_with('>'));
    assert!(colored.ends_with(": bad token"));
    assert!(colored.contains("error"));
}

#[test]
fn shifting_by_a_column_zero_offset_starts_the_line() {
    assert_eq!(Pos::new(5, 1, 7).shifted(Pos::new(0, 0, 0)), Pos::new(5, 1, 0));
    assert_eq!(Pos::new(5, 1, 7).shifted(Pos::new(2, 0, 3)), Pos::new(7, 1, 10));
    assert_eq!(Pos::new(5, 1, 7).shifted(Pos::new(2, 1, 3)), Pos::new(7, 2, 3));
    let mut p = Pos::new(5, 1, 7);
    p.shift(Pos::new(0, 0, 0));
    assert_eq!(p, Pos::new(5, 1, 0));
}

#[test]
fn column_metrics_iterates_columns() {
    let mut it = ColumnMetrics::new().iter_columns("a\tb", Pos::new(0, 0, 0));
    assert_eq!(it.next(), Some(("a", Pos::new(1, 0, 1))));
    assert_eq!(it.next(), Some(("\t", Pos::new(2, 0, 4))));
    assert_eq!(it.next(), Some(("b", Pos::new(3, 0, 5))));
    assert_eq!(it.next(), None);
}
