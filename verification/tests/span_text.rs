//! Spans written out together with the text they cover.
use tephra::ColumnMetrics;
use tephra::Pos;
use tephra::SourceText;
use tephra::Span;

fn shown(source: SourceText<'_>, span: Span) -> String {
    format!("\"{}\" ({})", source.clipped(span).as_str(), span.to_string())
}

#[test]
fn test_empty() {
    const TEXT: &str = "abcd";
    let source = SourceText::new(TEXT);
    let span = Span::new();

    assert_eq!(source.clipped(span).as_str(), "");
    assert_eq!(shown(source, span), "\"\" (0:0, byte 0)");
}

#[test]
fn full() {
    const TEXT: &str = " \n  abcd  \n ";
    let source = SourceText::new(TEXT).with_column_metrics(ColumnMetrics::new());
    let span = Span::full(source);

    assert_eq!(shown(source, span), "\" \n  abcd  \n \" (0:0-2:1, bytes 0-12)");
}

#[test]
fn widen_to_line() {
    const TEXT: &str = " \n  abcd  \n ";
    let source = SourceText::new(TEXT);
    let span = Span::new_enclosing(Pos::new(4, 1, 2), Pos::new(8, 1, 6));

    assert_eq!(shown(source, span.widen_to_line(source)), "\"  abcd  \" (1:0-1:8, bytes 2-10)");
}

#[test]
fn widen_empty_to_line() {
    const TEXT: &str = " \n  abcd  \n ";
    let source = SourceText::new(TEXT);
    let span = Span::new_at(Pos::new(6, 1, 4));

    assert_eq!(shown(source, span.widen_to_line(source)), "\"  abcd  \" (1:0-1:8, bytes 2-10)");
}

#[test]
fn widen_line_to_line() {
    const TEXT: &str = " \n  abcd  \n ";
    let source = SourceText::new(TEXT);
    let span = Span::new_enclosing(Pos::new(2, 1, 0), Pos::new(10, 1, 8));

    assert_eq!(shown(source, span.widen_to_line(source)), "\"  abcd  \" (1:0-1:8, bytes 2-10)");
}

#[test]
fn widen_full_to_line() {
    const TEXT: &str = " \n  abcd  \n ";
    let source = SourceText::new(TEXT);
    let span = Span::new_enclosing(Pos::new(0, 0, 0), Pos::new(12, 2, 1));

    assert_eq!(
        shown(source, span.widen_to_line(source)),
        "\" \n  abcd  \n \" (0:0-2:1, bytes 0-12)"
    );
}

#[test]
fn split_lines() {
    const TEXT: &str = "\n \n\n \nabcd\n def \nghi\n";
    let source = SourceText::new(TEXT);
    let span = Span::full(source);

    let mut actual = Vec::new();
    let mut it = span.split_lines(source);
    while let Some(sp) = it.next() {
        actual.push(shown(source, sp));
    }
    let expected = vec![
        "\"\" (0:0, byte 0)".to_owned(),
        "\" \" (1:0-1:1, bytes 1-2)".to_owned(),
        "\"\" (2:0, byte 3)".to_owned(),
        "\" \" (3:0-3:1, bytes 4-5)".to_owned(),
        "\"abcd\" (4:0-4:4, bytes 6-10)".to_owned(),
        "\" def \" (5:0-5:5, bytes 11-16)".to_owned(),
        "\"ghi\" (6:0-6:3, bytes 17-20)".to_owned(),
        "\"\" (7:0, byte 21)".to_owned(),
    ];

    assert_eq!(actual, expected);
}

#[test]
fn split_line_no_breaks() {
    const TEXT: &str = "abcd";
    let source = SourceText::new(TEXT);
    let span = Span::full(source);

    let mut actual = Vec::new();
    let mut it = span.split_lines(source);
    while let Some(sp) = it.next() {
        actual.push(shown(source, sp));
    }
    let expected = vec!["\"abcd\" (0:0-0:4, bytes 0-4)".to_owned()];

    assert_eq!(actual, expected);
}

#[test]
fn enclose() {
    const TEXT: &str = "\n \n\n \nabcd\n def \nghi\n";
    let source = SourceText::new(TEXT);
    let a = Span::new_enclosing(Pos::new(3, 2, 0), Pos::new(10, 4, 4));
    let b = Span::new_enclosing(Pos::new(5, 3, 1), Pos::new(20, 6, 3));

    assert_eq!(shown(source, a.enclose(b)), "\"\n \nabcd\n def \nghi\" (2:0-6:3, bytes 3-20)");
}

#[test]
fn union() {
    const TEXT: &str = "\n \n\n \nabcd\n def \nghi\n";
    let source = SourceText::new(TEXT);
    let a = Span::new_enclosing(Pos::new(3, 2, 0), Pos::new(10, 4, 4));
    let b = Span::new_enclosing(Pos::new(5, 3, 1), Pos::new(20, 6, 3));

    assert_eq!(
        shown(source, a.union(b).next().unwrap()),
        "\"\n \nabcd\n def \nghi\" (2:0-6:3, bytes 3-20)"
    );
}

#[test]
fn intersect() {
    const TEXT: &str = "\n \n\n \nabcd\n def \nghi\n";
    let source = SourceText::new(TEXT);
    let a = Span::new_enclosing(Pos::new(3, 2, 0), Pos::new(10, 4, 4));
    let b = Span::new_enclosing(Pos::new(5, 3, 1), Pos::new(20, 6, 3));

    assert_eq!(shown(source, a.intersect(b).unwrap()), "\"\nabcd\" (3:1-4:4, bytes 5-10)");
}

#[test]
fn minus() {
    const TEXT: &str = "\n \n\n \nabcd\n def \nghi\n";
    let source = SourceText::new(TEXT);
    let a = Span::new_enclosing(Pos::new(3, 2, 0), Pos::new(10, 4, 4));
    let b = Span::new_enclosing(Pos::new(5, 3, 1), Pos::new(20, 6, 3));

    assert_eq!(shown(source, a.minus(b).next().unwrap()), "\"\n \" (2:0-3:1, bytes 3-5)");
}

#[test]
fn test_lf_position_after_str() {
    let text = "abcd";
    let metrics = ColumnMetrics::new();

    let actual = metrics.position_after_str(text, Pos::zero(), "ab");
    assert_eq!(actual, Some(Pos::new(2, 0, 2)));

    let actual = metrics.position_after_str(text, Pos::new(1, 2, 3), "bc");
    assert_eq!(actual, Some(Pos::new(3, 2, 5)));
}

#[test]
fn test_lf_next_position_after_chars_matching() {
    let text = "    \t\tabcd";
    let metrics = ColumnMetrics::new();

    let actual = metrics.next_position_after_chars_matching(text, Pos::zero(), char::is_whitespace);
    assert_eq!(actual, Some(Pos::new(1, 0, 1)));

    let actual =
        metrics.next_position_after_chars_matching(text, Pos::new(4, 2, 3), char::is_whitespace);
    assert_eq!(actual, Some(Pos::new(5, 2, 4)));
}

#[test]
fn test_lf_position_after_chars_matching() {
    let text = "    \t\tabcd";
    let metrics = ColumnMetrics::new();

    let actual = metrics.position_after_chars_matching(text, Pos::zero(), char::is_whitespace);
    assert_eq!(actual, Some(Pos::new(6, 0, 12)));

    let actual =
        metrics.position_after_chars_matching(text, Pos::new(4, 2, 3), char::is_whitespace);
    assert_eq!(actual, Some(Pos::new(6, 2, 8)));
}

#[test]
fn lf_iter_columns() {
    let source = SourceText::new("abcd").with_column_metrics(ColumnMetrics::new());

    let mut it = source.iter_columns(Pos::zero());
    let mut actual = Vec::new();
    while let Some(x) = it.next() {
        actual.push(x);
    }

    let expected = vec![
        ("a", Pos::new(1, 0, 1)),
        ("b", Pos::new(2, 0, 2)),
        ("c", Pos::new(3, 0, 3)),
        ("d", Pos::new(4, 0, 4)),
    ];
    assert_eq!(actual, expected);
}

#[test]
fn metrics_lf_position_after_str() {
    let text = "abcd";
    let metrics = ColumnMetrics::new();

    let actual = metrics.position_after_str(text, Pos::zero(), "ab");
    assert_eq!(actual, Some(Pos::new(2, 0, 2)));

    let actual = metrics.position_after_str(text, Pos::new(1, 2, 3), "bc");
    assert_eq!(actual, Some(Pos::new(3, 2, 5)));
}

#[test]
fn metrics_lf_next_position_after_chars_matching() {
    let text = "    \t\tabcd";
    let metrics = ColumnMetrics::new();

    let actual = metrics.next_position_after_chars_matching(text, Pos::zero(), char::is_whitespace);
    assert_eq!(actual, Some(Pos::new(1, 0, 1)));

    let actual =
        metrics.next_position_after_chars_matching(text, Pos::new(4, 2, 3), char::is_whitespace);
    assert_eq!(actual, Some(Pos::new(5, 2, 4)));
}

#[test]
fn metrics_lf_position_after_chars_matching() {
    let text = "    \t\tabcd";
    let metrics = ColumnMetrics::new();

    let actual = metrics.position_after_chars_matching(text, Pos::zero(), char::is_whitespace);
    assert_eq!(actual, Some(Pos::new(6, 0, 12)));

    let actual =
        metrics.position_after_chars_matching(text, Pos::new(4, 2, 3), char::is_whitespace);
    assert_eq!(actual, Some(Pos::new(6, 2, 8)));
}
