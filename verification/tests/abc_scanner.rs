//! Lexing with the `Abc` test scanner.
use tephra::Lexer;
use tephra::Pos;
use tephra::Scanner;
use tephra::SourceText;
use AbcToken::A;
use AbcToken::B;
use AbcToken::C;
use AbcToken::D;
use AbcToken::Ws;

#[derive(Debug, Clone, Copy, PartialEq, Eq)]
enum AbcToken {
    A,
    B,
    C,
    D,
    Ws,
    Comma,
    Semicolon,
    OpenBracket,
    CloseBracket,
    Invalid,
}

#[derive(Debug, Clone, Copy, PartialEq, Eq)]
struct Abc(Option<AbcToken>);

impl Abc {
    fn new() -> Self {
        Self(None)
    }
}

impl Scanner for Abc {
    type Token = AbcToken;

    fn scan(&mut self, source: SourceText<'_>, base: Pos) -> Option<(AbcToken, Pos)> {
        let full = source.as_str();
        let text = &full[base.byte..];
        let metrics = source.column_metrics();
        let single = [
            (',', AbcToken::Comma),
            (';', AbcToken::Semicolon),
            (']', AbcToken::CloseBracket),
            ('[', AbcToken::OpenBracket),
            ('a', AbcToken::A),
            ('b', AbcToken::B),
            ('c', AbcToken::C),
            ('d', AbcToken::D),
        ];
        for (c, tok) in single {
            if text.starts_with(c) {
                self.0 = Some(tok);
                return Some((tok, metrics.end_position(&full[..=base.byte], base)));
            }
        }
        if text.starts_with(char::is_whitespace) {
            self.0 = Some(AbcToken::Ws);
            let rest = text.trim_start_matches(char::is_whitespace);
            let substr_len = text.len() - rest.len();
            let substr = &full[0..base.byte + substr_len];
            Some((AbcToken::Ws, metrics.end_position(substr, base)))
        } else if !text.is_empty() {
            self.0 = Some(AbcToken::Invalid);
            let len = text.chars().next().map(char::len_utf8).unwrap_or(1);
            Some((AbcToken::Invalid, metrics.end_position(&full[..base.byte + len], base)))
        } else {
            self.0 = None;
            None
        }
    }
}

fn tokens(text: &str) -> Vec<(AbcToken, String)> {
    let source = SourceText::new(text);
    let mut lexer = Lexer::new(Abc::new(), source).with_filter(Some(vec![Ws]));
    let mut out = Vec::new();
    let mut it = lexer.iter_with_spans();
    while let Some((tok, span)) = it.next() {
        out.push((tok, format!("{:?} ({})", source.clipped(span).as_str(), span.to_string())));
    }
    out
}

#[test]
fn abc_scanner_abc_tokens() {
    colored::control::set_override(false);

    let expected = vec![
        (A, "\"a\" (0:0-0:1, bytes 0-1)".to_string()),
        (B, "\"b\" (0:2-0:3, bytes 2-3)".to_string()),
        (C, "\"c\" (1:0-1:1, bytes 4-5)".to_string()),
        (D, "\"d\" (1:2-1:3, bytes 6-7)".to_string()),
    ];

    assert_eq!(tokens("a b\nc d"), expected);
}

#[test]
fn abc_suite_abc_tokens() {
    colored::control::set_override(false);

    let expected = vec![
        (A, "\"a\" (0:0-0:1, bytes 0-1)".to_string()),
        (B, "\"b\" (0:2-0:3, bytes 2-3)".to_string()),
        (C, "\"c\" (1:0-1:1, bytes 4-5)".to_string()),
        (D, "\"d\" (1:2-1:3, bytes 6-7)".to_string()),
    ];

    assert_eq!(tokens("a b\nc d"), expected);
}

#[test]
fn abc_punctuation_and_invalid_tokens() {
    let actual: Vec<AbcToken> = tokens("[a, b; ?]").into_iter().map(|(t, _)| t).collect();
    assert_eq!(
        actual,
        vec![
            AbcToken::OpenBracket,
            A,
            AbcToken::Comma,
            B,
            AbcToken::Semicolon,
            AbcToken::Invalid,
            AbcToken::CloseBracket,
        ]
    );
}

#[test]
fn one_parses_the_expected_token() {
    let source = SourceText::new("a b");
    let lexer = Lexer::new(Abc::new(), source).with_filter(Some(vec![Ws]));
    let success = tephra::combinator::one(lexer, A).ok().unwrap();
    assert_eq!(success.value, A);
    assert_eq!(success.lexer.cursor_pos(), Pos::new(1, 0, 1));
}

#[test]
fn one_fails_on_another_token() {
    let source = SourceText::new("a b");
    let lexer = Lexer::new(Abc::new(), source).with_filter(Some(vec![Ws]));
    let error = tephra::combinator::one(lexer, B).err().unwrap();
    match *error {
        tephra::ParseError::UnexpectedToken(e) => {
            assert!(matches!(e.found, tephra::error::lexer::Found::Token(A)));
            assert!(matches!(e.expected, tephra::error::lexer::Expected::Token(B)));
            assert_eq!(e.token_span, tephra::Span::new_enclosing(Pos::new(0, 0, 0), Pos::new(1, 0, 1)));
        },
        _ => panic!("expected an unexpected token error"),
    }
}

#[test]
fn one_fails_at_the_end_of_text() {
    let source = SourceText::new("");
    let lexer = Lexer::new(Abc::new(), source);
    let error = tephra::combinator::one(lexer, A).err().unwrap();
    match *error {
        tephra::ParseError::UnexpectedToken(e) => {
            assert!(matches!(e.found, tephra::error::lexer::Found::EndOfText));
            assert_eq!(e.token_span, tephra::Span::new_at(Pos::new(0, 0, 0)));
        },
        _ => panic!("expected an unexpected token error"),
    }
}

#[test]
fn empty_parses_nothing() {
    let source = SourceText::new("a");
    let lexer = Lexer::new(Abc::new(), source);
    let success = tephra::combinator::empty(lexer).ok().unwrap();
    assert_eq!(success.lexer.cursor_pos(), Pos::new(0, 0, 0));
}

type Abcx<'t> = tephra::ParseResult<'t, Abc, u32>;

fn lexer_of(text: &str) -> Lexer<'_, Abc> {
    Lexer::new(Abc::new(), SourceText::new(text)).with_filter(Some(vec![Ws]))
}

/// Parses an `a` as the value 1.
fn item<'t>(lexer: Lexer<'t, Abc>, _accept: bool) -> Abcx<'t> {
    match tephra::combinator::one(lexer, A) {
        Ok(s) => Ok(tephra::Success { lexer: s.lexer, value: 1 }),
        Err(e) => Err(e),
    }
}

/// Parses a comma.
fn comma<'t>(lexer: Lexer<'t, Abc>, _accept: bool) -> tephra::ParseResult<'t, Abc, AbcToken> {
    tephra::combinator::one(lexer, AbcToken::Comma)
}

/// Parses a semicolon.
fn semicolon<'t>(lexer: Lexer<'t, Abc>, _accept: bool) -> tephra::ParseResult<'t, Abc, AbcToken> {
    tephra::combinator::one(lexer, AbcToken::Semicolon)
}

/// Takes an error where the context accepts errors, else hands it back.
fn sink(accept: &bool, e: tephra::ParseError<AbcToken>) -> Result<(), tephra::ParseError<AbcToken>> {
    if *accept {
        Ok(())
    } else {
        Err(e)
    }
}

fn is_semicolon(t: &AbcToken) -> bool {
    *t == AbcToken::Semicolon
}

const OPEN: [AbcToken; 1] = [AbcToken::OpenBracket];
const CLOSE: [AbcToken; 1] = [AbcToken::CloseBracket];

#[test]
fn bracket_default_index_parses_between_brackets() {
    let r = tephra::parse::bracket_default_index(lexer_of("[a] b"), &false, &OPEN, item, &CLOSE, is_semicolon, sink);
    let s = r.ok().unwrap();
    assert_eq!(s.value, (1, 0));
    assert_eq!(s.lexer.cursor_pos(), Pos::new(3, 0, 3));
}

#[test]
fn bracket_default_index_recovers_with_the_default_value() {
    let r = tephra::parse::bracket_default_index(lexer_of("[b] a"), &true, &OPEN, item, &CLOSE, is_semicolon, sink);
    let s = r.ok().unwrap();
    assert_eq!(s.value, (0, 0));
    assert_eq!(s.lexer.cursor_pos(), Pos::new(3, 0, 3));
}

#[test]
fn bracket_default_index_fails_when_the_context_hands_the_error_back() {
    let r = tephra::parse::bracket_default_index(lexer_of("[b]"), &false, &OPEN, item, &CLOSE, is_semicolon, sink);
    assert!(matches!(*r.err().unwrap(), tephra::ParseError::UnexpectedToken(_)));
}

#[test]
fn bracket_default_index_reports_unmatched_brackets() {
    let r = tephra::parse::bracket_default_index(lexer_of("[a"), &true, &OPEN, item, &CLOSE, is_semicolon, sink);
    assert!(matches!(*r.err().unwrap(), tephra::ParseError::MatchBracket(_)));
    let r = tephra::parse::bracket_default_index(lexer_of(""), &true, &OPEN, item, &CLOSE, is_semicolon, sink);
    assert!(matches!(*r.err().unwrap(), tephra::ParseError::MatchBracket(_)));
}

#[test]
fn bracket_default_stops_the_search_at_an_abort_token() {
    let r = tephra::parse::bracket_default(lexer_of("; [a]"), &true, &OPEN, item, &CLOSE, &[AbcToken::Semicolon], sink);
    assert!(matches!(*r.err().unwrap(), tephra::ParseError::MatchBracket(_)));
    let r = tephra::parse::bracket_default(lexer_of("b [a]"), &true, &OPEN, item, &CLOSE, &[AbcToken::Semicolon], sink);
    assert_eq!(r.ok().unwrap().value, (1, 0));
}

#[test]
fn list_bounded_default_parses_every_item() {
    let r = tephra::parse::list_bounded_default(lexer_of("a, a, a"), &false, 0, None, item, AbcToken::Comma, is_semicolon, sink);
    let s = r.ok().unwrap();
    assert_eq!(s.value, vec![1, 1, 1]);
    assert_eq!(s.lexer.cursor_pos(), Pos::new(7, 0, 7));
}

#[test]
fn list_bounded_default_recovers_a_failed_item_with_the_default() {
    let r = tephra::parse::list_bounded_default(lexer_of("a, b, a"), &true, 0, None, item, AbcToken::Comma, is_semicolon, sink);
    assert_eq!(r.ok().unwrap().value, vec![1, 0, 1]);
    let r = tephra::parse::list_bounded_default(lexer_of("a, b, a"), &false, 0, None, item, AbcToken::Comma, is_semicolon, sink);
    assert!(r.is_err());
}

#[test]
fn list_bounded_default_ends_at_an_abort_token() {
    let r = tephra::parse::list_bounded_default(lexer_of("a, a; a"), &false, 0, None, item, AbcToken::Comma, is_semicolon, sink);
    let s = r.ok().unwrap();
    assert_eq!(s.value, vec![1, 1]);
    assert_eq!(s.lexer.cursor_pos(), Pos::new(4, 0, 4));
}

#[test]
fn list_bounded_default_reports_too_few_items() {
    let r = tephra::parse::list_bounded_default(lexer_of("a, a"), &false, 3, None, item, AbcToken::Comma, is_semicolon, sink);
    assert!(matches!(*r.err().unwrap(), tephra::ParseError::RepeatCount(_)));
    let r = tephra::parse::list_bounded_default(lexer_of("a, a"), &true, 3, None, item, AbcToken::Comma, is_semicolon, sink);
    assert_eq!(r.ok().unwrap().value, vec![1, 1]);
}

#[test]
fn list_bounded_default_with_upper_bound_zero_parses_nothing() {
    let r = tephra::parse::list_bounded_default(lexer_of("a, a"), &false, 0, Some(0), item, AbcToken::Comma, is_semicolon, sink);
    let s = r.ok().unwrap();
    assert!(s.value.is_empty());
    assert_eq!(s.lexer.cursor_pos(), Pos::new(0, 0, 0));
}

#[test]
fn list_default_and_delimited_list_default_parse_every_item() {
    let r = tephra::parse::list_default(lexer_of("a, a"), &false, item, AbcToken::Comma, is_semicolon, sink);
    assert_eq!(r.ok().unwrap().value, vec![1, 1]);
    let r = tephra::parse::delimited_list_default(lexer_of("a, a"), &false, item, AbcToken::Comma, &[AbcToken::CloseBracket], sink);
    assert_eq!(r.ok().unwrap().value, vec![1, 1]);
}

#[test]
fn delimited_list_bounded_default_stops_at_the_upper_bound() {
    let r = tephra::parse::delimited_list_bounded_default(lexer_of("a, a, a"), &false, 0, Some(2), item, AbcToken::Comma, &[AbcToken::CloseBracket], sink);
    assert_eq!(r.ok().unwrap().value, vec![1, 1]);
}

#[test]
fn intersperse_default_parses_separated_items() {
    let r = tephra::parse::intersperse_default(lexer_of("a, a, a b"), &false, 0, None, item, AbcToken::Comma);
    let s = r.ok().unwrap();
    assert_eq!(s.value, vec![1, 1, 1]);
    assert_eq!(s.lexer.cursor_pos(), Pos::new(7, 0, 7));
}

#[test]
fn intersperse_default_gives_nothing_where_nothing_is_required() {
    let r = tephra::parse::intersperse_default(lexer_of("b"), &false, 0, None, item, AbcToken::Comma);
    let s = r.ok().unwrap();
    assert!(s.value.is_empty());
    assert_eq!(s.lexer.cursor_pos(), Pos::new(0, 0, 0));
}

#[test]
fn intersperse_default_fails_below_the_lower_bound() {
    let r = tephra::parse::intersperse_default(lexer_of("a, a"), &false, 3, None, item, AbcToken::Comma);
    assert!(matches!(*r.err().unwrap(), tephra::ParseError::UnexpectedToken(_)));
}

#[test]
fn intersperse_with_a_separator_parser_stops_at_the_upper_bound() {
    let r = tephra::parse::intersperse(lexer_of("a, a, a"), &false, 1, Some(2), item, comma);
    assert_eq!(r.ok().unwrap().value, vec![1, 1]);
    let r = tephra::parse::intersperse_count(lexer_of("a, a, a"), &false, 0, None, item, comma);
    assert_eq!(r.ok().unwrap().value, 3);
}

#[test]
fn intersperse_until_stops_before_the_stop_parse() {
    let r = tephra::parse::intersperse_until(lexer_of("a, a; a"), &false, 3, None, semicolon, item, comma);
    let s = r.ok().unwrap();
    assert_eq!(s.value, vec![1, 1]);
    assert_eq!(s.lexer.cursor_pos(), Pos::new(4, 0, 4));
    let r = tephra::parse::intersperse_count_until(lexer_of("; a"), &false, 1, None, semicolon, item, comma);
    let s = r.ok().unwrap();
    assert_eq!(s.value, 0);
    assert_eq!(s.lexer.cursor_pos(), Pos::new(0, 0, 0));
}

#[test]
fn intersperse_until_fails_on_a_required_item() {
    let r = tephra::parse::intersperse_until(lexer_of("a, b"), &false, 2, None, semicolon, item, comma);
    assert!(r.is_err());
}

#[test]
fn repeat_parses_items_one_after_another() {
    let r = tephra::parse::repeat(lexer_of("a a a b"), &false, 0, None, item);
    assert_eq!(r.ok().unwrap().value, vec![1, 1, 1]);
    let r = tephra::parse::repeat_count(lexer_of("a a a"), &false, 4, None, item);
    assert!(r.is_err());
    let r = tephra::parse::repeat_until(lexer_of("a a ; a"), &false, 0, None, semicolon, item);
    assert_eq!(r.ok().unwrap().value, vec![1, 1]);
    let r = tephra::parse::repeat_count_until(lexer_of("a a ; a"), &false, 0, Some(1), semicolon, item);
    assert_eq!(r.ok().unwrap().value, 1);
}

#[test]
fn any_parses_one_of_the_tokens() {
    let s = tephra::combinator::any(lexer_of("b a"), &[A, B]).ok().unwrap();
    assert_eq!(s.value, B);
    assert_eq!(s.lexer.cursor_pos(), Pos::new(1, 0, 1));
    let s = tephra::combinator::any_index(lexer_of(" c"), &[A, C, C]).ok().unwrap();
    assert_eq!(s.value, 1);
    assert_eq!(s.lexer.cursor_pos(), Pos::new(2, 0, 2));
}

#[test]
fn any_fails_on_another_token_or_the_end() {
    let e = tephra::combinator::any(lexer_of("d"), &[A, B]).err().unwrap();
    match *e {
        tephra::ParseError::UnexpectedToken(u) => {
            assert!(matches!(u.found, tephra::error::lexer::Found::Token(D)));
            assert!(matches!(u.expected, tephra::error::lexer::Expected::Tokens(ref v) if *v == vec![A, B]));
            assert_eq!(u.token_span, tephra::Span::new_enclosing(Pos::new(0, 0, 0), Pos::new(1, 0, 1)));
        },
        _ => panic!("expected an unexpected token error"),
    }
    let e = tephra::combinator::any_index(lexer_of(""), &[A]).err().unwrap();
    match *e {
        tephra::ParseError::UnexpectedToken(u) => {
            assert!(matches!(u.found, tephra::error::lexer::Found::EndOfText));
            assert_eq!(u.token_span, tephra::Span::new_at(Pos::new(0, 0, 0)));
        },
        _ => panic!("expected an unexpected token error"),
    }
}

#[test]
fn seq_parses_the_tokens_in_order() {
    let s = tephra::combinator::seq(lexer_of("a b c d"), &[A, B, C]).ok().unwrap();
    assert_eq!(s.value, vec![A, B, C]);
    assert_eq!(s.lexer.cursor_pos(), Pos::new(5, 0, 5));
    let s = tephra::combinator::seq(lexer_of("a"), &[]).ok().unwrap();
    assert!(s.value.is_empty());
    assert_eq!(s.lexer.cursor_pos(), Pos::new(0, 0, 0));
}

#[test]
fn seq_names_the_first_missing_token() {
    let e = tephra::combinator::seq(lexer_of("a b d"), &[A, B, C]).err().unwrap();
    match *e {
        tephra::ParseError::UnexpectedToken(u) => {
            assert!(matches!(u.found, tephra::error::lexer::Found::Token(D)));
            assert!(matches!(u.expected, tephra::error::lexer::Expected::Token(C)));
            assert_eq!(u.token_span, tephra::Span::new_enclosing(Pos::new(4, 0, 4), Pos::new(5, 0, 5)));
            assert_eq!(u.parse_span, tephra::Span::new_at(Pos::new(0, 0, 0)));
        },
        _ => panic!("expected an unexpected token error"),
    }
    let e = tephra::combinator::seq(lexer_of("a"), &[A, B]).err().unwrap();
    match *e {
        tephra::ParseError::UnexpectedToken(u) => {
            assert!(matches!(u.found, tephra::error::lexer::Found::EndOfText));
            assert!(matches!(u.expected, tephra::error::lexer::Expected::Token(B)));
        },
        _ => panic!("expected an unexpected token error"),
    }
}
