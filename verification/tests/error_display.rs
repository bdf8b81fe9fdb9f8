//! Errors written out with the source text they point into.
use tephra::Pos;
use tephra::SourceText;
use tephra::Span;
use tephra::SpanDisplay;
use tephra::error::source::SourceError;

#[test]
fn spanless_error() {
    colored::control::set_override(false);

    let source = SourceText::new("");
    let e = SourceError::new(source, "DESCRIPTION".to_string());

    assert_eq!(e.to_string(), "error: DESCRIPTION\n");
}

#[test]
fn single_line_spanned_error() {
    colored::control::set_override(false);

    const TEXT: &str = "\n \n\n \nabcd\n def \nghi\n";
    let source = SourceText::new(TEXT);
    let span = Span::new_enclosing(Pos::new(6, 4, 0), Pos::new(10, 4, 4));

    let e = SourceError::new(source, "unrecognized token".to_string()).with_span_display(
        SpanDisplay::new_error_highlight(source, span, "symbol not recognized".to_string()),
    );

    let expected = "error: unrecognized token
 --> (4:0-4:4, bytes 6-10)
  | 
4 | abcd
  | ^^^^ symbol not recognized
";
    assert_eq!(e.to_string(), expected);
}

#[test]
fn multi_line_spanned_error() {
    colored::control::set_override(false);

    const TEXT: &str = "\n \n\n \nabcd\n def \nghi\n";
    let source = SourceText::new(TEXT);
    let span = Span::new_enclosing(Pos::new(3, 2, 0), Pos::new(10, 4, 4));

    let e = SourceError::new(source, "unrecognized token".to_string()).with_span_display(
        SpanDisplay::new_error_highlight(source, span, "symbol not recognized".to_string()),
    );

    let expected = "error: unrecognized token
 --> (2:0-4:4, bytes 3-10)
  | 
2 | / 
3 | |  
4 | | abcd
  | |____^ symbol not recognized
";
    assert_eq!(e.to_string(), expected);
}

#[test]
fn spanned_error_without_color_matches_colored_override() {
    colored::control::set_override(false);

    const TEXT: &str = "\n \n\n \nabcd\n def \nghi\n";
    let source = SourceText::new(TEXT);
    let span = Span::new_enclosing(Pos::new(6, 4, 0), Pos::new(10, 4, 4));

    let plain = SourceError::new(source, "unrecognized token".to_string())
        .with_span_display(SpanDisplay::new_error_highlight(
            source,
            span,
            "symbol not recognized".to_string(),
        ))
        .with_color(false);
    let colored = SourceError::new(source, "unrecognized token".to_string()).with_span_display(
        SpanDisplay::new_error_highlight(source, span, "symbol not recognized".to_string()),
    );
    assert_eq!(plain.to_string(), colored.to_string());
}

fn is_subsequence(small: &str, big: &str) -> bool {
    let mut rest = big.chars();
    small.chars().all(|c| rest.any(|d| d == c))
}

#[test]
fn colored_error_holds_the_plain_text_in_order() {
    const TEXT: &str = "\n \n\n \nabcd\n def \nghi\n";
    let source = SourceText::new(TEXT);
    let span = Span::new_enclosing(Pos::new(3, 2, 0), Pos::new(10, 4, 4));
    let e = SourceError::new(source, "unrecognized token".to_string()).with_span_display(
        SpanDisplay::new_error_highlight(source, span, "symbol not recognized".to_string()),
    );
    let written = e.to_string();
    let expected = "error: unrecognized token
 --> (2:0-4:4, bytes 3-10)
  | 
2 | / 
3 | |  
4 | | abcd
  | |____^ symbol not recognized
";
    assert!(is_subsequence(expected, &written));
    assert!(written.ends_with("symbol not recognized\n") || written.contains("symbol not recognized"));
}
