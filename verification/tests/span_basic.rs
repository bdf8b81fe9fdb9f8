//! Span operations over a source text that starts at the zero position.
use tephra::Pos;
use tephra::SourceText;
use tephra::Span;

fn lines(source: SourceText<'_>, span: Span) -> Vec<String> {
    let mut out = Vec::new();
    let mut it = span.split_lines(source);
    while let Some(sp) = it.next() {
        out.push(format!("{:?} ({})", source.clipped(sp).as_str(), sp.to_string()));
    }
    out
}

#[test]
fn span_basic_empty() {
    const TEXT: &str = "abcd";
    let source = SourceText::new(TEXT);
    let span = Span::new();

    let actual = source.clipped(span);
    assert_eq!(actual.as_str(), "");

    assert_eq!(span.to_string(), "0:0, byte 0");
}

#[test]
fn source_text_basic_full_span() {
    const TEXT: &str = " \n  abcd  \n ";
    let source = SourceText::new(TEXT);
    let span = source.full_span();

    let actual = source.clipped(span);
    assert_eq!(actual.as_str(), " \n  abcd  \n ");

    assert_eq!(span.to_string(), "0:0-2:1, bytes 0-12");
}

#[test]
fn span_basic_widen_to_line() {
    const TEXT: &str = " \n  abcd  \n ";
    let source = SourceText::new(TEXT);
    let span = Span::new_enclosing(Pos::new(4, 1, 2), Pos::new(8, 1, 6)).widen_to_line(source);

    let actual = source.clipped(span);
    assert_eq!(actual.as_str(), "  abcd  ");

    assert_eq!(span.to_string(), "1:0-1:8, bytes 2-10");
}

#[test]
fn span_basic_empty_widen_to_line() {
    const TEXT: &str = " \n  abcd  \n ";
    let source = SourceText::new(TEXT);
    let span = Span::new_at(Pos::new(6, 1, 4)).widen_to_line(source);

    let actual = source.clipped(span);
    assert_eq!(actual.as_str(), "  abcd  ");

    assert_eq!(span.to_string(), "1:0-1:8, bytes 2-10");
}

#[test]
fn span_basic_line_widen_to_line() {
    const TEXT: &str = " \n  abcd  \n ";
    let source = SourceText::new(TEXT);
    let span = Span::new_enclosing(Pos::new(2, 1, 0), Pos::new(10, 1, 8)).widen_to_line(source);

    let actual = source.clipped(span);
    assert_eq!(actual.as_str(), "  abcd  ");

    assert_eq!(span.to_string(), "1:0-1:8, bytes 2-10");
}

#[test]
fn span_basic_full_widen_to_line() {
    const TEXT: &str = " \n  abcd  \n ";
    let source = SourceText::new(TEXT);
    let span = source.full_span().widen_to_line(source);

    let actual = source.clipped(span);
    assert_eq!(actual.as_str(), " \n  abcd  \n ");

    assert_eq!(span.to_string(), "0:0-2:1, bytes 0-12");
}

#[test]
fn span_basic_split_lines() {
    const TEXT: &str = "\n \n\n \nabcd\n def \nghi\n";
    let source = SourceText::new(TEXT);
    let span = source.full_span();

    let actual = lines(source, span);
    let expected = vec![
        "\"\" (0:0, byte 0)".to_owned(),
        "\" \" (1:0-1:1, bytes 1-2)".to_owned(),
        "\"\" (2:0, byte 3)".to_owned(),
        "\" \" (3:0-3:1, bytes 4-5)".to_owned(),
        "\"abcd\" (4:0-4:4, bytes 6-10)".to_owned(),
        "\" def \" (5:0-5:5, bytes 11-16)".to_owned(),
        "\"ghi\" (6:0-6:3, bytes 17-20)".to_owned(),
        "\"\" (7:0, byte 21)".to_owned(),
    ];

    assert_eq!(actual, expected);
}

#[test]
fn span_basic_no_breaks_split_line() {
    const TEXT: &str = "abcd";
    let source = SourceText::new(TEXT);
    let span = source.full_span();

    let actual = lines(source, span);
    let expected = vec!["\"abcd\" (0:0-0:4, bytes 0-4)".to_owned()];

    assert_eq!(actual, expected);
}

#[test]
fn span_basic_enclose() {
    const TEXT: &str = "\n \n\n \nabcd\n def \nghi\n";
    let source = SourceText::new(TEXT);

    let a = Span::new_enclosing(Pos::new(3, 2, 0), Pos::new(10, 4, 4));
    let b = Span::new_enclosing(Pos::new(5, 3, 1), Pos::new(20, 6, 3));
    let span = a.enclose(b);

    let actual = source.clipped(span);
    assert_eq!(actual.as_str(), "\n \nabcd\n def \nghi");

    assert_eq!(span.to_string(), "2:0-6:3, bytes 3-20");
}

#[test]
fn span_basic_union() {
    const TEXT: &str = "\n \n\n \nabcd\n def \nghi\n";
    let source = SourceText::new(TEXT);

    let a = Span::new_enclosing(Pos::new(3, 2, 0), Pos::new(10, 4, 4));
    let b = Span::new_enclosing(Pos::new(5, 3, 1), Pos::new(20, 6, 3));
    let span = a.union(b).next().unwrap();

    let actual = source.clipped(span);
    assert_eq!(actual.as_str(), "\n \nabcd\n def \nghi");

    assert_eq!(span.to_string(), "2:0-6:3, bytes 3-20");
}

#[test]
fn span_basic_intersect() {
    const TEXT: &str = "\n \n\n \nabcd\n def \nghi\n";
    let source = SourceText::new(TEXT);

    let a = Span::new_enclosing(Pos::new(3, 2, 0), Pos::new(10, 4, 4));
    let b = Span::new_enclosing(Pos::new(5, 3, 1), Pos::new(20, 6, 3));
    let span = a.intersect(b).unwrap();

    let actual = source.clipped(span);
    assert_eq!(actual.as_str(), "\nabcd");

    assert_eq!(span.to_string(), "3:1-4:4, bytes 5-10");
}

#[test]
fn span_basic_minus() {
    const TEXT: &str = "\n \n\n \nabcd\n def \nghi\n";
    let source = SourceText::new(TEXT);

    let a = Span::new_enclosing(Pos::new(3, 2, 0), Pos::new(10, 4, 4));
    let b = Span::new_enclosing(Pos::new(5, 3, 1), Pos::new(20, 6, 3));
    let span = a.minus(b).next().unwrap();

    let actual = source.clipped(span);
    assert_eq!(actual.as_str(), "\n ");

    assert_eq!(span.to_string(), "2:0-3:1, bytes 3-5");
}

#[test]
fn span_basic_source_text_lf_iter_columns() {
    const TEXT: &str = "abcd";
    let source = SourceText::new(TEXT);

    let mut it = source.iter_columns(Pos::zero());
    let mut actual = Vec::new();
    while let Some(x) = it.next() {
        actual.push(x);
    }

    let expected = vec![
        ("a", Pos::new(1, 0, 1)),
        ("b", Pos::new(2, 0, 2)),
        ("c", Pos::new(3, 0, 3)),
        ("d", Pos::new(4, 0, 4)),
    ];
    assert_eq!(actual, expected);
}
