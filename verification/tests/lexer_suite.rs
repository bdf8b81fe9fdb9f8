//! The lexer driven by a small scanner.
use tephra::Lexer;
use tephra::Pos;
use tephra::Scanner;
use tephra::SourceText;
use tephra::ParseResult;
use tephra::ParseResultExt;
use tephra::result::Success;
use TestToken::A;
use TestToken::Aa;
use TestToken::B;
use TestToken::Def;
use TestToken::Ws;

#[derive(Debug, Clone, Copy, PartialEq, Eq)]
enum TestToken {
    Aa,
    A,
    B,
    Def,
    Ws,
}

#[derive(Debug, Clone, Copy, PartialEq, Eq)]
struct Test(Option<TestToken>);

impl Test {
    fn new() -> Self {
        Test(None)
    }
}

impl Scanner for Test {
    type Token = TestToken;

    fn scan(&mut self, source: SourceText<'_>, base: Pos) -> Option<(TestToken, Pos)> {
        let full = source.as_str();
        let text = &full[base.byte..];
        let metrics = source.column_metrics();

        if text.starts_with("aa") {
            self.0 = Some(TestToken::Aa);
            Some((TestToken::Aa, metrics.end_position(&full[..base.byte + 2], base)))
        } else if text.starts_with('a') {
            self.0 = Some(TestToken::A);
            Some((TestToken::A, metrics.end_position(&full[..=base.byte], base)))
        } else if text.starts_with('b') {
            self.0 = Some(TestToken::B);
            Some((TestToken::B, metrics.end_position(&full[..=base.byte], base)))
        } else if text.starts_with("def") {
            self.0 = Some(TestToken::Def);
            Some((TestToken::Def, metrics.end_position(&full[..base.byte + 3], base)))
        } else {
            self.0 = Some(TestToken::Ws);
            let rest = text.trim_start_matches(char::is_whitespace);
            if rest.len() < text.len() {
                let substr_len = text.len() - rest.len();
                let substr = &full[0..base.byte + substr_len];
                Some((TestToken::Ws, metrics.end_position(substr, base)))
            } else {
                self.0 = None;
                None
            }
        }
    }
}

fn spans_of(lexer: &mut Lexer<'_, Test>, source: SourceText<'_>) -> Vec<(TestToken, String)> {
    let mut out = Vec::new();
    let mut it = lexer.iter_with_spans();
    while let Some((tok, span)) = it.next() {
        out.push((tok, format!("{:?} ({})", source.clipped(span).as_str(), span.to_string())));
    }
    out
}

#[test]
fn lexer_suite_empty() {
    let source = SourceText::new("");
    let mut lexer = Lexer::new(Test::new(), source);

    assert_eq!(lexer.next(), None);
}

#[test]
fn lexer_suite_simple() {
    let source = SourceText::new("aa b");
    let mut lexer = Lexer::new(Test::new(), source);

    assert_eq!(lexer.next(), Some(Aa));
    assert_eq!(lexer.next(), Some(Ws));
    assert_eq!(lexer.next(), Some(B));
}

#[test]
fn lexer_suite_simple_peek() {
    let source = SourceText::new("aa b");
    let mut lexer = Lexer::new(Test::new(), source);

    assert_eq!(lexer.peek(), Some(Aa));
    assert_eq!(lexer.next(), Some(Aa));
    assert_eq!(lexer.peek(), Some(Ws));
    assert_eq!(lexer.next(), Some(Ws));
    assert_eq!(lexer.peek(), Some(B));
    assert_eq!(lexer.next(), Some(B));
    assert_eq!(lexer.peek(), None);
    assert_eq!(lexer.next(), None);
}

#[test]
fn lexer_suite_simple_iter() {
    let source = SourceText::new("aa b");
    let mut lexer = Lexer::new(Test::new(), source);

    assert_eq!(
        spans_of(&mut lexer, source),
        vec![
            (Aa, "\"aa\" (0:0-0:2, bytes 0-2)".to_string()),
            (Ws, "\" \" (0:2-0:3, bytes 2-3)".to_string()),
            (B, "\"b\" (0:3-0:4, bytes 3-4)".to_string()),
        ]
    );
}

#[test]
fn auto_filter() {
    let source = SourceText::new("aaaabaaaab");
    let mut lexer = Lexer::new(Test::new(), source);
    let _ = lexer.set_filter(Some(vec![Aa]));

    assert_eq!(lexer.peek(), Some(B));

    let f = lexer.set_filter(None);

    assert_eq!(lexer.peek(), Some(Aa));

    let _ = lexer.set_filter(f);

    let actual = spans_of(&mut lexer, source);
    let expected = vec![
        (B, "\"b\" (0:4-0:5, bytes 4-5)".to_string()),
        (B, "\"b\" (0:9-0:10, bytes 9-10)".to_string()),
    ];

    assert_eq!(actual, expected);
}

#[test]
fn lexer_suite_whitespace_filter() {
    let source = SourceText::new("aa b \nbdef\n aaa");
    let mut lexer = Lexer::new(Test::new(), source);
    let _ = lexer.set_filter(Some(vec![Ws]));

    let actual = spans_of(&mut lexer, source);
    let expected = vec![
        (Aa, "\"aa\" (0:0-0:2, bytes 0-2)".to_string()),
        (B, "\"b\" (0:3-0:4, bytes 3-4)".to_string()),
        (B, "\"b\" (1:0-1:1, bytes 6-7)".to_string()),
        (Def, "\"def\" (1:1-1:4, bytes 7-10)".to_string()),
        (Aa, "\"aa\" (2:1-2:3, bytes 12-14)".to_string()),
        (A, "\"a\" (2:3-2:4, bytes 14-15)".to_string()),
    ];

    assert_eq!(actual, expected);
}

#[test]
fn lexer_peek_then_next_agree() {
    let source = SourceText::new("aa bdef a");
    let mut lexer = Lexer::new(Test::new(), source);
    loop {
        let peeked = lexer.peek();
        let taken = lexer.next();
        assert_eq!(peeked, taken);
        if taken.is_none() {
            break;
        }
    }
}

#[test]
fn lexer_spans_and_positions() {
    let source = SourceText::new("aa b");
    let mut lexer = Lexer::new(Test::new(), source);

    assert_eq!(lexer.peek(), Some(Aa));
    assert_eq!(lexer.peek_token_span().unwrap().to_string(), "0:0-0:2, bytes 0-2");
    assert_eq!(lexer.cursor_pos(), Pos::zero());
    assert_eq!(lexer.next(), Some(Aa));
    assert_eq!(lexer.cursor_pos(), Pos::new(2, 0, 2));
    assert_eq!(lexer.token_span().to_string(), "0:0-0:2, bytes 0-2");
    assert_eq!(lexer.next(), Some(Ws));
    assert_eq!(lexer.parse_span().to_string(), "0:0-0:3, bytes 0-3");
    lexer.start_sublex();
    assert_eq!(lexer.parse_span().to_string(), "0:3, byte 3");
    assert_eq!(lexer.next_if_eq(&A), None);
    assert_eq!(lexer.next_if_eq(&B), Some(B));
    assert!(lexer.is_empty_with_filter());
}

fn shown(lexer: &Lexer<'_, Test>) -> String {
    let d = lexer.state_display(&format!("{:?}", lexer.scanner));
    let mut s = String::new();
    d.write(&mut s, lexer.source_text);
    s
}

#[test]
fn lexer_suite_display_formatting() {
    colored::control::set_override(false);

    const TEXT: &str = "aa b \nbdef\n aaa";
    let source = SourceText::new(TEXT);
    let mut lexer = Lexer::new(Test::new(), source);
    let _ = lexer.set_filter(Some(vec![Ws]));

    assert_eq!(shown(&lexer), "\
note: Lexer
 --> (0:0-0:5, bytes 0-5)
  | 
0 | aa b 
  | \\ token (0:0, byte 0)
  | \\ parse (0:0, byte 0)
  | \\ cursor (0:0, byte 0), scanner: Test(None)
  | -- peek (0:0-0:2, bytes 0-2)
");

    assert_eq!(lexer.next(), Some(Aa));
    assert_eq!(shown(&lexer), "\
note: Lexer
 --> (0:0-0:5, bytes 0-5)
  | 
0 | aa b 
  | -- token (0:0-0:2, bytes 0-2)
  | -- parse (0:0-0:2, bytes 0-2)
  |   \\ cursor (0:2, byte 2), scanner: Test(Some(Aa))
");

    assert_eq!(lexer.next(), Some(B));
    assert_eq!(shown(&lexer), "\
note: Lexer
 --> (0:0-0:5, bytes 0-5)
  | 
0 | aa b 
  |    - token (0:3-0:4, bytes 3-4)
  | ---- parse (0:0-0:4, bytes 0-4)
  |     \\ cursor (0:4, byte 4), scanner: Test(Some(B))
");

    assert_eq!(lexer.next(), Some(B));
    assert_eq!(shown(&lexer), "\
note: Lexer
 --> (0:0-1:4, bytes 0-10)
  | 
0 | / aa b 
1 | | bdef
  | | - token (1:0-1:1, bytes 6-7)
  | |_^ parse (0:0-1:1, bytes 0-7)
  |    \\ cursor (1:1, byte 7), scanner: Test(Some(B))
");

    assert_eq!(lexer.next(), Some(Def));
    assert_eq!(shown(&lexer), "\
note: Lexer
 --> (0:0-1:4, bytes 0-10)
  | 
0 | / aa b 
1 | | bdef
  | |  --- token (1:1-1:4, bytes 7-10)
  | |____^ parse (0:0-1:4, bytes 0-10)
  |       \\ cursor (1:4, byte 10), scanner: Test(Some(Def))
");

    assert_eq!(lexer.next(), Some(Aa));
    assert_eq!(shown(&lexer), "\
note: Lexer
 --> (0:0-2:4, bytes 0-15)
  | 
0 | / aa b 
1 | | bdef
2 | |  aaa
  | |  -- token (2:1-2:3, bytes 12-14)
  | |___^ parse (0:0-2:3, bytes 0-14)
  |      \\ cursor (2:3, byte 14), scanner: Test(Some(Aa))
");

    assert_eq!(lexer.next(), Some(A));
    assert_eq!(shown(&lexer), "\
note: Lexer
 --> (0:0-2:4, bytes 0-15)
  | 
0 | / aa b 
1 | | bdef
2 | |  aaa
  | |    - token (2:3-2:4, bytes 14-15)
  | |____^ parse (0:0-2:4, bytes 0-15)
  |       \\ cursor (2:4, byte 15), scanner: Test(Some(A))
");

    assert_eq!(lexer.next(), None);
}

#[test]
fn lexer_suite_tabstop_align() {
    colored::control::set_override(false);

    const TEXT: &str = "\taa\ta\n\t\tb";
    let source = SourceText::new(TEXT);
    let mut lexer = Lexer::new(Test::new(), source);

    assert_eq!(shown(&lexer), "\
note: Lexer
 --> (0:0-0:9, bytes 0-5)
  | 
0 | 	aa	a
  | \\ token (0:0, byte 0)
  | \\ parse (0:0, byte 0)
  | \\ cursor (0:0, byte 0), scanner: Test(None)
");

    assert_eq!(lexer.next(), Some(Ws));
    assert_eq!(shown(&lexer), "\
note: Lexer
 --> (0:0-0:9, bytes 0-5)
  | 
0 | 	aa	a
  | ---- token (0:0-0:4, bytes 0-1)
  | ---- parse (0:0-0:4, bytes 0-1)
  |     \\ cursor (0:4, byte 1), scanner: Test(Some(Ws))
");
}

#[test]
fn parse_result_maps_value_and_lexer() {
    let source = SourceText::new("aa b");
    let lexer = Lexer::new(Test::new(), source);
    let r: ParseResult<'_, Test, u32> = Ok(Success::new(20, lexer));
    let r = r.map_value(|v: u32| v + 1);
    let r = r.map_lexer(|mut l: Lexer<'_, Test>| {
        let _ = l.next();
        l
    });
    let s = r.ok().unwrap();
    assert_eq!(s.value, 21);
    assert_eq!(s.lexer.cursor_pos(), Pos::new(2, 0, 2));
}
