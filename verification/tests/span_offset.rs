//! Span operations over a source text that starts at a later position.
use tephra::Pos;
use tephra::SourceText;
use tephra::Span;

fn offset_source(text: &str) -> SourceText<'_> {
    SourceText::new(text).with_start_position(Pos::new(100, 10, 10))
}

fn lines(source: SourceText<'_>, span: Span) -> Vec<String> {
    let mut out = Vec::new();
    let mut it = span.split_lines(source);
    while let Some(sp) = it.next() {
        out.push(format!("{:?} ({})", source.clipped(sp).as_str(), sp.to_string()));
    }
    out
}

#[test]
fn span_offset_within_empty() {
    let source = offset_source("abcd");
    let span = Span::new_at(Pos::new(100, 10, 10));

    let actual = source.clipped(span);
    assert_eq!(actual.as_str(), "");

    assert_eq!(span.to_string(), "10:10, byte 100");
}

#[test]
fn source_text_offset_full_span() {
    let source = offset_source(" \n  abcd  \n ");
    let span = source.full_span();

    let actual = source.clipped(span);
    assert_eq!(actual.as_str(), " \n  abcd  \n ");

    assert_eq!(span.to_string(), "10:10-12:1, bytes 100-112");
}

#[test]
fn span_offset_widen_to_line() {
    let source = offset_source(" \n  abcd  \n ");
    let span = Span::new_enclosing(Pos::new(104, 11, 2), Pos::new(108, 11, 6))
        .widen_to_line(source);

    let actual = source.clipped(span);
    assert_eq!(actual.as_str(), "  abcd  ");

    assert_eq!(span.to_string(), "11:0-11:8, bytes 102-110");
}

#[test]
fn span_offset_empty_widen_to_line() {
    let source = offset_source(" \n  abcd  \n ");
    let span = Span::new_at(Pos::new(106, 11, 4)).widen_to_line(source);

    let actual = source.clipped(span);
    assert_eq!(actual.as_str(), "  abcd  ");

    assert_eq!(span.to_string(), "11:0-11:8, bytes 102-110");
}

#[test]
fn span_offset_line_widen_to_line() {
    let source = offset_source(" \n  abcd  \n ");
    let span = Span::new_enclosing(Pos::new(102, 11, 0), Pos::new(110, 11, 8))
        .widen_to_line(source);

    let actual = source.clipped(span);
    assert_eq!(actual.as_str(), "  abcd  ");

    assert_eq!(span.to_string(), "11:0-11:8, bytes 102-110");
}

#[test]
fn span_offset_full_widen_to_line() {
    let source = offset_source(" \n  abcd  \n ");
    let span = source.full_span().widen_to_line(source);

    let actual = source.clipped(span);
    assert_eq!(actual.as_str(), " \n  abcd  \n ");

    assert_eq!(span.to_string(), "10:10-12:1, bytes 100-112");
}

#[test]
fn span_offset_split_lines() {
    let source = offset_source("\n \n\n \nabcd\n def \nghi\n");
    let span = source.full_span();

    let actual = lines(source, span);
    let expected = vec![
        "\"\" (10:10, byte 100)".to_owned(),
        "\" \" (11:0-11:1, bytes 101-102)".to_owned(),
        "\"\" (12:0, byte 103)".to_owned(),
        "\" \" (13:0-13:1, bytes 104-105)".to_owned(),
        "\"abcd\" (14:0-14:4, bytes 106-110)".to_owned(),
        "\" def \" (15:0-15:5, bytes 111-116)".to_owned(),
        "\"ghi\" (16:0-16:3, bytes 117-120)".to_owned(),
        "\"\" (17:0, byte 121)".to_owned(),
    ];

    assert_eq!(actual, expected);
}

#[test]
fn span_offset_no_breaks_split_line() {
    let source = offset_source("abcd");
    let span = source.full_span();

    let actual = lines(source, span);
    let expected = vec!["\"abcd\" (10:10-10:14, bytes 100-104)".to_owned()];

    assert_eq!(actual, expected);
}

#[test]
fn span_offset_enclose() {
    let source = offset_source("\n \n\n \nabcd\n def \nghi\n");

    let a = Span::new_enclosing(Pos::new(103, 12, 0), Pos::new(110, 14, 4));
    let b = Span::new_enclosing(Pos::new(105, 13, 1), Pos::new(120, 16, 3));
    let span = a.enclose(b);

    let actual = source.clipped(span);
    assert_eq!(actual.as_str(), "\n \nabcd\n def \nghi");

    assert_eq!(span.to_string(), "12:0-16:3, bytes 103-120");
}

#[test]
fn span_offset_union() {
    let source = offset_source("\n \n\n \nabcd\n def \nghi\n");

    let a = Span::new_enclosing(Pos::new(103, 12, 0), Pos::new(110, 14, 4));
    let b = Span::new_enclosing(Pos::new(105, 13, 1), Pos::new(120, 16, 3));
    let span = a.union(b).next().unwrap();

    let actual = source.clipped(span);
    assert_eq!(actual.as_str(), "\n \nabcd\n def \nghi");

    assert_eq!(span.to_string(), "12:0-16:3, bytes 103-120");
}

#[test]
fn span_offset_intersect() {
    let source = offset_source("\n \n\n \nabcd\n def \nghi\n");

    let a = Span::new_enclosing(Pos::new(103, 12, 0), Pos::new(110, 14, 4));
    let b = Span::new_enclosing(Pos::new(105, 13, 1), Pos::new(120, 16, 3));
    let span = a.intersect(b).unwrap();

    let actual = source.clipped(span);
    assert_eq!(actual.as_str(), "\nabcd");

    assert_eq!(span.to_string(), "13:1-14:4, bytes 105-110");
}

#[test]
fn span_offset_minus() {
    let source = offset_source("\n \n\n \nabcd\n def \nghi\n");

    let a = Span::new_enclosing(Pos::new(103, 12, 0), Pos::new(110, 14, 4));
    let b = Span::new_enclosing(Pos::new(105, 13, 1), Pos::new(120, 16, 3));
    let span = a.minus(b).next().unwrap();

    let actual = source.clipped(span);
    assert_eq!(actual.as_str(), "\n ");

    assert_eq!(span.to_string(), "12:0-13:1, bytes 103-105");
}

#[test]
fn span_offset_source_text_lf_iter_columns() {
    let source = offset_source("abcd");

    let mut it = source.iter_columns(Pos::zero());
    let mut actual = Vec::new();
    while let Some(x) = it.next() {
        actual.push(x);
    }

    let expected = vec![
        ("a", Pos::new(1, 0, 1)),
        ("b", Pos::new(2, 0, 2)),
        ("c", Pos::new(3, 0, 3)),
        ("d", Pos::new(4, 0, 4)),
    ];
    assert_eq!(actual, expected);
}
