//! Matching nested brackets in a token stream.
use tephra::Lexer;
use tephra::Pos;
use tephra::Scanner;
use tephra::SourceText;
use tephra::bracket::BracketMatcher;
use tephra::bracket::BracketStep;
use tephra::bracket::match_nested_brackets;
use tephra::bracket::token_index;
use tephra::error::delimit::MatchBracketError;

#[derive(Debug, Clone, Copy, PartialEq, Eq)]
enum Tok {
    Open(u8),
    Close(u8),
    Word,
    Stop,
    Ws,
}

#[derive(Debug, Clone, Copy, PartialEq, Eq)]
struct Brackets;

impl Scanner for Brackets {
    type Token = Tok;

    fn scan(&mut self, source: SourceText<'_>, base: Pos) -> Option<(Tok, Pos)> {
        let full = source.as_str();
        let c = full[base.byte..].chars().next()?;
        let tok = match c {
            '(' => Tok::Open(0),
            '[' => Tok::Open(1),
            ')' => Tok::Close(0),
            ']' => Tok::Close(1),
            ';' => Tok::Stop,
            ' ' => Tok::Ws,
            _ => Tok::Word,
        };
        let end = source.column_metrics().end_position(&full[..base.byte + c.len_utf8()], base);
        Some((tok, end))
    }
}

const OPEN: [Tok; 2] = [Tok::Open(0), Tok::Open(1)];
const CLOSE: [Tok; 2] = [Tok::Close(0), Tok::Close(1)];

fn run(text: &str) -> Result<(usize, usize, usize), String> {
    let source = SourceText::new(text);
    let lexer = Lexer::new(Brackets, source).with_filter(Some(vec![Tok::Ws]));
    match match_nested_brackets(lexer, &OPEN, &CLOSE, |t: &Tok| *t == Tok::Stop) {
        Ok(m) => Ok((m.index, m.open.peek_token_span().unwrap().start().byte,
            m.close.peek_token_span().unwrap().start().byte)),
        Err(e) => Err(e.to_string()),
    }
}

#[test]
fn token_index_finds_first_equal() {
    assert_eq!(token_index(&OPEN, &Tok::Open(1)), Some(1));
    assert_eq!(token_index(&CLOSE, &Tok::Open(1)), None);
    assert_eq!(token_index(&[Tok::Word, Tok::Word], &Tok::Word), Some(0));
}

#[test]
fn matcher_open_then_close_matches() {
    let mut m = BracketMatcher::new(2);
    assert_eq!(m.step(None, Some(0), false), BracketStep::Continue);
    assert!(m.opened());
    assert_eq!(m.step(Some(0), None, false), BracketStep::Matched);
}

#[test]
fn matcher_nested_runs() {
    let mut m = BracketMatcher::new(2);
    assert_eq!(m.step(None, Some(0), false), BracketStep::Continue);
    assert_eq!(m.step(None, Some(0), false), BracketStep::Continue);
    assert_eq!(m.step(None, Some(1), false), BracketStep::Continue);
    assert_eq!(m.step(Some(1), None, false), BracketStep::Continue);
    assert_eq!(m.step(Some(0), None, false), BracketStep::Continue);
    assert_eq!(m.step(Some(0), None, false), BracketStep::Matched);
}

#[test]
fn matcher_errors() {
    let mut m = BracketMatcher::new(2);
    assert_eq!(m.step(Some(0), None, false), BracketStep::Unopened);

    let mut m = BracketMatcher::new(2);
    assert_eq!(m.step(None, None, true), BracketStep::NoneFound);

    let mut m = BracketMatcher::new(2);
    assert_eq!(m.step(None, Some(0), false), BracketStep::Continue);
    assert_eq!(m.step(None, None, true), BracketStep::Continue);
    assert_eq!(m.step(Some(1), None, false), BracketStep::Mismatch);
}

#[test]
fn brackets_simple_match() {
    assert_eq!(run("a (b c) d"), Ok((0, 2, 6)));
}

#[test]
fn brackets_nested_kinds_match() {
    assert_eq!(run("([a] [b]) c"), Ok((0, 0, 8)));
    assert_eq!(run("x [(a) ((b))]"), Ok((1, 2, 12)));
}

#[test]
fn brackets_none_found_at_end() {
    assert_eq!(run("a b c"), Err("bracket error: expected open bracket at 0:0, byte 0".to_string()));
}

#[test]
fn brackets_none_found_at_abort() {
    assert_eq!(
        run("a ; (b)"),
        Err("bracket error: expected open bracket at 0:2-0:3, bytes 2-3".to_string())
    );
}

#[test]
fn brackets_abort_ignored_after_open() {
    assert_eq!(run("(a ; b)"), Ok((0, 0, 6)));
}

#[test]
fn brackets_unopened() {
    assert_eq!(
        run("a ) (b)"),
        Err("bracket error: unmatched close bracket at 0:2-0:3, bytes 2-3".to_string())
    );
}

#[test]
fn brackets_unclosed() {
    assert_eq!(
        run("a (b (c)"),
        Err("bracket error: unmatched open bracket at 0:2-0:3, bytes 2-3".to_string())
    );
}

#[test]
fn brackets_mismatch() {
    assert_eq!(
        run("(a ]"),
        Err("bracket error: mismatched brackets at 0:0-0:1, bytes 0-1 and 0:3-0:4, bytes 3-4"
            .to_string())
    );
}

#[test]
fn brackets_match_error_full_span() {
    let e = MatchBracketError::Mismatch {
        found_start: tephra::Span::new_enclosing(Pos::new(0, 0, 0), Pos::new(1, 0, 1)),
        found_end: tephra::Span::new_enclosing(Pos::new(3, 0, 3), Pos::new(4, 0, 4)),
    };
    assert_eq!(e.full_span().to_string(), "0:0-0:4, bytes 0-4");
}

#[test]
fn brackets_mismatch_display() {
    colored::control::set_override(false);
    let source = SourceText::new("(a ]");
    let e = MatchBracketError::Mismatch {
        found_start: tephra::Span::new_enclosing(Pos::new(0, 0, 0), Pos::new(1, 0, 1)),
        found_end: tephra::Span::new_enclosing(Pos::new(3, 0, 3), Pos::new(4, 0, 4)),
    };
    let expected = "error: mismatched brackets
 --> (0:0-0:4, bytes 0-4)
  | 
0 | (a ]
  | ^ the bracket here
  |    ^ ... does not match the closing bracket here
";
    assert_eq!(e.into_source_error(source).to_string(), expected);
}
