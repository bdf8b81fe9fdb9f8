//! Each kind of parse error, described and displayed.
use tephra::ParseError;
use tephra::Pos;
use tephra::SourceText;
use tephra::Span;
use tephra::error::delimit::MatchBracketError;
use tephra::error::delimit::ParseBoundaryError;
use tephra::error::delimit::RepeatCountError;
use tephra::error::lexer::Describe;
use tephra::error::lexer::Expected;
use tephra::error::lexer::Found;
use tephra::error::lexer::RecoverError;
use tephra::error::lexer::UnexpectedTokenError;
use tephra::error::lexer::UnrecognizedTokenError;

#[derive(Debug, Clone, Copy, PartialEq, Eq)]
enum Tok {
    A,
    B,
    C,
    D,
    E,
    F,
}

impl Describe for Tok {
    fn describe(&self) -> String {
        match self {
            Tok::A => "'a'",
            Tok::B => "'b'",
            Tok::C => "'c'",
            Tok::D => "'d'",
            Tok::E => "'e'",
            Tok::F => "'f'",
        }
        .to_string()
    }
}

fn span(a: usize, b: usize) -> Span {
    Span::new_enclosing(Pos::new(a, 0, a), Pos::new(b, 0, b))
}

#[test]
fn expected_descriptions() {
    assert_eq!(Expected::Token(Tok::A).describe(), "'a'");
    assert_eq!(Expected::<Tok>::any(vec![]).describe(), "nothing");
    assert_eq!(Expected::any(vec![Tok::B]).describe(), "'b'");
    assert_eq!(Expected::any(vec![Tok::A, Tok::B]).describe(), "one of 'a', 'b'");
    assert_eq!(
        Expected::any(vec![Tok::A, Tok::B, Tok::C, Tok::D, Tok::E, Tok::F]).describe(),
        "one of 'a', 'b', 'c', 'd', 'e'"
    );
    assert_eq!(Expected::<Tok>::EndOfText.describe(), "end of text");
    assert_eq!(Expected::<Tok>::AnyToken.describe(), "any token");
    assert_eq!(Expected::<Tok>::Other("a name".to_string()).describe(), "a name");
    assert!(Expected::<Tok>::any(vec![]).is_empty());
    assert!(!Expected::any(vec![Tok::A]).is_empty());
}

#[test]
fn found_descriptions() {
    assert_eq!(Found::Token(Tok::C).describe(), "'c'");
    assert_eq!(Found::<Tok>::EndOfText.describe(), "end of text");
}

#[test]
fn unexpected_token_error_text() {
    let e = UnexpectedTokenError {
        parse_span: span(0, 2),
        token_span: span(2, 3),
        expected: Expected::any(vec![Tok::A, Tok::B]),
        found: Found::Token(Tok::C),
    };
    assert_eq!(e.expected_description(), "expected one of 'a', 'b'; found 'c'");
    assert_eq!(e.to_string(), "expected one of 'a', 'b'; found 'c' 0:2-0:3, bytes 2-3");

    let e = UnexpectedTokenError {
        parse_span: span(0, 2),
        token_span: span(2, 3),
        expected: Expected::any(vec![]),
        found: Found::Token(Tok::C),
    };
    assert_eq!(e.expected_description(), "found 'c'");
    let p: ParseError<Tok> = ParseError::UnexpectedToken(e);
    assert_eq!(p.to_string(), "found 'c' 0:2-0:3, bytes 2-3");
    assert_eq!(p.error_span(), Some(span(0, 2)));
}

#[test]
fn unexpected_token_error_display() {
    colored::control::set_override(false);
    let source = SourceText::new("abc");
    let e = UnexpectedTokenError {
        parse_span: span(0, 2),
        token_span: span(2, 3),
        expected: Expected::Token(Tok::A),
        found: Found::Token(Tok::C),
    };
    let expected = "error: unexpected token
 --> (0:0-0:3, bytes 0-3)
  | 
0 | abc
  |   ^ expected 'a'; found 'c'
";
    assert_eq!(e.into_source_error(source).to_string(), expected);
}

#[test]
fn unrecognized_token_error_text() {
    let e = UnrecognizedTokenError { parse_span: span(1, 4) };
    assert_eq!(e.to_string(), "unrecognized token 0:4, byte 4");
    let p: ParseError<Tok> = ParseError::UnrecognizedToken(e);
    assert_eq!(p.to_string(), "unrecognized token 0:4, byte 4");
}

#[test]
fn parse_boundary_error_text() {
    let e = ParseBoundaryError { error_span: span(0, 2), expected_end_pos: Pos::new(5, 0, 5) };
    assert_eq!(e.full_span(), span(0, 5));
    assert_eq!(e.unparsed_span(), span(2, 5));
    assert_eq!(e.to_string(), "incomplete parse: unexpected text at 0:2-0:5, bytes 2-5");
}

#[test]
fn repeat_count_error_text() {
    let few = RepeatCountError { error_span: span(0, 2), found: 1, expected_min: 2, expected_max: None };
    assert_eq!(few.to_string(), "invalid item count: expected 2 items; found 1");
    let one = RepeatCountError { error_span: span(0, 2), found: 0, expected_min: 1, expected_max: None };
    assert_eq!(one.to_string(), "invalid item count: expected 1 item; found 0");
    let exact = RepeatCountError {
        error_span: span(0, 2),
        found: 4,
        expected_min: 3,
        expected_max: Some(3),
    };
    assert_eq!(exact.to_string(), "invalid item count: expected 3 items; found 4");
    let range = RepeatCountError {
        error_span: span(0, 2),
        found: 9,
        expected_min: 2,
        expected_max: Some(5),
    };
    assert_eq!(range.expected_description(), "expected 2 to 5 items; found 9");
}

#[test]
fn match_bracket_error_texts() {
    assert_eq!(
        MatchBracketError::NoneFound { expected_start: span(1, 1) }.to_string(),
        "bracket error: expected open bracket at 0:1, byte 1"
    );
    assert_eq!(
        MatchBracketError::Unclosed { found_start: span(1, 2) }.to_string(),
        "bracket error: unmatched open bracket at 0:1-0:2, bytes 1-2"
    );
    assert_eq!(
        MatchBracketError::Unopened { found_end: span(3, 4) }.to_string(),
        "bracket error: unmatched close bracket at 0:3-0:4, bytes 3-4"
    );
}

#[test]
fn recover_and_other_errors() {
    assert_eq!(RecoverError.to_string(), "unable to recover from previous error");
    let p: ParseError<Tok> = ParseError::Recover(RecoverError);
    assert_eq!(p.to_string(), "unable to recover from previous error");
    assert_eq!(p.error_span(), None);
    let o: ParseError<Tok> = ParseError::Other("custom failure".to_string());
    assert_eq!(o.to_string(), "custom failure");
    assert!(o.is_recoverable());
}

#[test]
fn other_error_displays_without_spans() {
    colored::control::set_override(false);
    let source = SourceText::new("abc");
    let o: ParseError<Tok> = ParseError::Other("custom failure".to_string());
    assert_eq!(o.into_source_error(source).to_string(), "error: custom failure\n");
}
