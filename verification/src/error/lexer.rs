//! Errors of lexing and error recovery.
use vstd::prelude::*;
use crate::display::SpanDisplay;
use crate::error::source::SourceError;
use crate::fmt::pos_text;
use crate::fmt::push_span;
use crate::fmt::push_str;
use crate::fmt::span_text;
use crate::position::Pos;
use crate::source::SourceText;
use crate::span::Span;
use crate::span::enclosing;

verus! {

/// How a token is written in error messages; implemented by the users of
/// the library for their token types.
pub trait Describe {
    /// The token written as text. Each implementation gives its own; an
    /// implementation outside verified code is known only through
    /// `describe`.
    closed spec fn described(&self) -> Seq<char> {
        vstd::pervasive::arbitrary()
    }

    /// Returns the token written as text.
    fn describe(&self) -> (r: String)
        ensures
            r@ == self.described();
}

/// The first `n` tokens written as text, separated by commas.
pub open spec fn joined<T: Describe>(tokens: Seq<T>, n: nat) -> Seq<char>
    decreases n,
{
    if n == 0 {
        Seq::empty()
    } else if n == 1 {
        tokens[0].described()
    } else {
        joined(tokens, (n - 1) as nat) + ", "@ + tokens[n - 1].described()
    }
}

/// An error generated when a token is unrecognized.
#[derive(Debug, Clone, Copy, PartialEq, Eq, Structural)]
pub struct UnrecognizedTokenError {
    /// The span of the parse up to the start of the unrecognized token.
    pub parse_span: Span,
}

impl UnrecognizedTokenError {
    /// The description of the error.
    pub open spec fn text(self) -> Seq<char> {
        "unrecognized token "@ + pos_text(self.parse_span.end_pos())
    }

    /// Returns the description of the error.
    pub fn to_string(&self) -> (r: String)
        ensures
            r@ == self.text(),
    {
        let mut s = String::new();
        push_str(&mut s, "unrecognized token ");
        let p = self.parse_span.end().to_string();
        push_str(&mut s, p.as_str());
        assert(s@ =~= self.text());
        s
    }

    /// Converts the error into a `SourceError` attached to the given source
    /// text, displaying the position where the token starts.
    pub fn into_source_error<'text>(self, source_text: SourceText<'text>) -> (r: SourceError<'text>)
        requires
            enclosing(self.parse_span.end_pos(), self.parse_span.end_pos()).widen_ok(source_text),
        ensures
            r.source_text == source_text,
            r.code_display.message@ == "unrecognized token"@,
            r.code_display.span_displays@.len() == 1,
            r.code_display.span_displays@[0].span == enclosing(
                self.parse_span.end_pos(),
                self.parse_span.end_pos(),
            ).widen_spec(source_text),
            r.code_display.span_displays@[0].highlights@.len() == 0,
            r.cause matches Some(c) && c@ == self.text(),
    {
        let d = SpanDisplay::new(source_text, Span::new_at(self.parse_span.end()));
        SourceError::new(source_text, String::from_str("unrecognized token")).with_span_display(
            d,
        ).with_cause(self.to_string())
    }
}

/// Describes expected parseable tokens.
#[derive(Debug, Clone)]
pub enum Expected<T> {
    /// Expected one token.
    Token(T),
    /// Expected one or more kinds of tokens.
    Tokens(Vec<T>),
    /// Expected end-of-text.
    EndOfText,
    /// Expected any token.
    AnyToken,
    /// Expected something else.
    Other(String),
}

/// The maximum number of tokens written in an expected-tokens description.
pub const MAX_EXPECTED_DISPLAY: usize = 5;

impl<T> Expected<T> {
    /// Returns true if the expected token list is empty.
    pub fn is_empty(&self) -> (r: bool)
        ensures
            r == (self matches Expected::Tokens(toks) && toks@.len() == 0),
    {
        match self {
            Expected::Tokens(toks) => toks.len() == 0,
            _ => false,
        }
    }

    /// Constructs a description expecting any of the given tokens.
    pub fn any(tokens: Vec<T>) -> (r: Expected<T>)
        ensures
            r == Expected::Tokens(tokens),
    {
        Expected::Tokens(tokens)
    }
}

impl<T: Describe> Expected<T> {
    /// The description of the expected tokens.
    pub open spec fn text(self) -> Seq<char> {
        match self {
            Expected::Token(t) => t.described(),
            Expected::Tokens(toks) => if toks@.len() == 0 {
                "nothing"@
            } else if toks@.len() == 1 {
                toks@[0].described()
            } else if toks@.len() < MAX_EXPECTED_DISPLAY {
                "one of "@ + joined(toks@, toks@.len())
            } else {
                "one of "@ + joined(toks@, MAX_EXPECTED_DISPLAY as nat)
            },
            Expected::EndOfText => "end of text"@,
            Expected::AnyToken => "any token"@,
            Expected::Other(m) => m@,
        }
    }

    /// Returns the description of the expected tokens: a single token as
    /// itself, several as `one of` and a list of at most five.
    pub fn describe(&self) -> (r: String)
        ensures
            r@ == self.text(),
    {
        proof {
            reveal_strlit("nothing");
            reveal_strlit("one of ");
            reveal_strlit(", ");
            reveal_strlit("end of text");
            reveal_strlit("any token");
        }
        match self {
            Expected::Token(tok) => tok.describe(),
            Expected::Tokens(toks) => {
                if toks.len() == 0 {
                    String::from_str("nothing")
                } else if toks.len() == 1 {
                    toks[0].describe()
                } else {
                    let n = if toks.len() < MAX_EXPECTED_DISPLAY {
                        toks.len()
                    } else {
                        MAX_EXPECTED_DISPLAY
                    };
                    let mut s = String::from_str("one of ");
                    let first = toks[0].describe();
                    push_str(&mut s, first.as_str());
                    let mut i: usize = 1;
                    while i < n
                        invariant
                            n <= toks@.len(),
                            1 <= i <= n,
                            s@ == "one of "@ + joined(toks@, i as nat),
                        decreases n - i,
                    {
                        push_str(&mut s, ", ");
                        let t = toks[i].describe();
                        push_str(&mut s, t.as_str());
                        i = i + 1;
                        assert(s@ =~= "one of "@ + joined(toks@, i as nat));
                    }
                    s
                }
            },
            Expected::EndOfText => String::from_str("end of text"),
            Expected::AnyToken => String::from_str("any token"),
            Expected::Other(m) => m.clone(),
        }
    }
}

/// Describes found parseable tokens.
#[derive(Debug, Clone)]
pub enum Found<T> {
    /// Found the given token.
    Token(T),
    /// Found the end-of-text.
    EndOfText,
}

impl<T: Describe> Found<T> {
    /// The description of the found token.
    pub open spec fn text(self) -> Seq<char> {
        match self {
            Found::Token(t) => t.described(),
            Found::EndOfText => "end of text"@,
        }
    }

    /// Returns the description of the found token.
    pub fn describe(&self) -> (r: String)
        ensures
            r@ == self.text(),
    {
        proof {
            reveal_strlit("end of text");
        }
        match self {
            Found::Token(tok) => tok.describe(),
            Found::EndOfText => String::from_str("end of text"),
        }
    }
}

/// An error generated when a token is unexpected.
#[derive(Debug, Clone)]
pub struct UnexpectedTokenError<T> {
    /// The span of the parse up to the start of the unexpected token.
    pub parse_span: Span,
    /// The span of the found token.
    pub token_span: Span,
    /// The expected tokens.
    pub expected: Expected<T>,
    /// The found token.
    pub found: Found<T>,
}

impl<T: Describe> UnexpectedTokenError<T> {
    /// The description of the expected and found tokens.
    pub open spec fn expected_text(self) -> Seq<char> {
        if self.expected matches Expected::Tokens(toks) && toks@.len() == 0 {
            "found "@ + self.found.text()
        } else {
            "expected "@ + self.expected.text() + "; found "@ + self.found.text()
        }
    }

    /// The description of the error.
    pub open spec fn text(self) -> Seq<char> {
        self.expected_text() + " "@ + span_text(self.token_span)
    }

    /// Returns the description of the expected and found tokens:
    /// `found ...` where nothing is expected, `expected ...; found ...`
    /// otherwise.
    pub fn expected_description(&self) -> (r: String)
        ensures
            r@ == self.expected_text(),
    {
        if self.expected.is_empty() {
            let mut s = String::from_str("found ");
            let f = self.found.describe();
            push_str(&mut s, f.as_str());
            s
        } else {
            let mut s = String::from_str("expected ");
            let e = self.expected.describe();
            push_str(&mut s, e.as_str());
            push_str(&mut s, "; found ");
            let f = self.found.describe();
            push_str(&mut s, f.as_str());
            s
        }
    }

    /// Returns the description of the error: the expected and found tokens
    /// and the span of the found token.
    pub fn to_string(&self) -> (r: String)
        ensures
            r@ == self.text(),
    {
        let mut s = self.expected_description();
        push_str(&mut s, " ");
        push_span(&mut s, self.token_span);
        s
    }

    /// Converts the error into a `SourceError` attached to the given source
    /// text, highlighting the found token.
    pub fn into_source_error<'text>(self, source_text: SourceText<'text>) -> (r: SourceError<'text>)
        requires
            self.token_span.widen_ok(source_text),
        ensures
            r.source_text == source_text,
            r.code_display.message@ == "unexpected token"@,
            r.code_display.span_displays@.len() == 1,
            r.code_display.span_displays@[0].span == self.token_span.widen_spec(source_text),
            r.code_display.span_displays@[0].highlights@.len() == 1,
            r.code_display.span_displays@[0].highlights@[0].span == self.token_span,
            r.code_display.span_displays@[0].highlights@[0].end_message matches Some(m) && m@
                == self.expected_text(),
            r.cause matches Some(c) && c@ == self.text(),
    {
        let desc = self.expected_description();
        let cause = self.to_string();
        let d = SpanDisplay::new_error_highlight(source_text, self.token_span, desc);
        SourceError::new(source_text, String::from_str("unexpected token")).with_span_display(
            d,
        ).with_cause(cause)
    }
}

/// An error generated when error recovery fails.
#[derive(Debug, Clone, Copy, PartialEq, Eq, Structural)]
pub struct RecoverError;

impl RecoverError {
    /// Returns the description of the error.
    pub fn to_string(&self) -> (r: String)
        ensures
            r@ == "unable to recover from previous error"@,
    {
        String::from_str("unable to recover from previous error")
    }
}

} // verus!
