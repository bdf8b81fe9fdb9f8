//! Parse errors.
pub mod delimit;
pub mod lexer;
pub mod source;

use vstd::prelude::*;
use crate::error::delimit::MatchBracketError;
use crate::error::delimit::ParseBoundaryError;
use crate::error::delimit::RepeatCountError;
use crate::error::lexer::Describe;
use crate::error::lexer::RecoverError;
use crate::error::lexer::UnexpectedTokenError;
use crate::error::lexer::UnrecognizedTokenError;
use crate::error::source::SourceError;
use crate::source::SourceText;
use crate::span::Span;
use crate::span::enclosing;

verus! {

/// The errors that parsing can produce.
#[derive(Debug, Clone)]
pub enum ParseError<T> {
    /// A token was not recognized.
    UnrecognizedToken(UnrecognizedTokenError),
    /// A token was not the one expected.
    UnexpectedToken(UnexpectedTokenError<T>),
    /// A parse did not consume as much text as required.
    ParseBoundary(ParseBoundaryError),
    /// Brackets did not match.
    MatchBracket(MatchBracketError),
    /// A repeated parse did not occur the required number of times.
    RepeatCount(RepeatCountError),
    /// Error recovery failed.
    Recover(RecoverError),
    /// Another error, by its description.
    Other(String),
}

impl<T> ParseError<T> {
    /// The span of the parse up to the error, where the error has one.
    pub open spec fn error_span_spec(self) -> Option<Span> {
        match self {
            ParseError::UnrecognizedToken(e) => Some(e.parse_span),
            ParseError::UnexpectedToken(e) => Some(e.parse_span),
            ParseError::ParseBoundary(e) => Some(e.error_span),
            ParseError::MatchBracket(e) => Some(e.full_span_spec()),
            ParseError::RepeatCount(e) => Some(e.error_span),
            ParseError::Recover(_) => None,
            ParseError::Other(_) => None,
        }
    }

    /// Returns the span of the parse up to the error, where the error has
    /// one.
    pub fn error_span(&self) -> (r: Option<Span>)
        ensures
            r == self.error_span_spec(),
    {
        match self {
            ParseError::UnrecognizedToken(e) => Some(e.parse_span),
            ParseError::UnexpectedToken(e) => Some(e.parse_span),
            ParseError::ParseBoundary(e) => Some(e.error_span),
            ParseError::MatchBracket(e) => Some(e.full_span()),
            ParseError::RepeatCount(e) => Some(e.error_span),
            ParseError::Recover(_) => None,
            ParseError::Other(_) => None,
        }
    }

    /// Returns true if the error is recoverable; every parse error is.
    pub fn is_recoverable(&self) -> (r: bool)
        ensures
            r,
    {
        true
    }
}

impl<T: Describe> ParseError<T> {
    /// Whether the error can be displayed in the source text.
    pub open spec fn displayable(self, source_text: SourceText<'_>) -> bool {
        match self {
            ParseError::UnrecognizedToken(e) => enclosing(
                e.parse_span.end_pos(),
                e.parse_span.end_pos(),
            ).widen_ok(source_text),
            ParseError::UnexpectedToken(e) => e.token_span.widen_ok(source_text),
            ParseError::ParseBoundary(e) => enclosing(
                e.error_span.start_pos(),
                e.expected_end_pos,
            ).widen_ok(source_text),
            ParseError::MatchBracket(e) => e.displayable(source_text),
            ParseError::RepeatCount(e) => (e.found < e.expected_min || e.expected_max is Some)
                && e.error_span.widen_ok(source_text),
            _ => true,
        }
    }

    /// The description of the error.
    pub open spec fn text(self) -> Seq<char> {
        match self {
            ParseError::UnrecognizedToken(e) => e.text(),
            ParseError::UnexpectedToken(e) => e.text(),
            ParseError::ParseBoundary(e) => e.text(),
            ParseError::MatchBracket(e) => e.text(),
            ParseError::RepeatCount(e) => "invalid item count: "@ + e.expected_text(),
            ParseError::Recover(_) => "unable to recover from previous error"@,
            ParseError::Other(m) => m@,
        }
    }

    /// Returns the description of the error.
    pub fn to_string(&self) -> (r: String)
        requires
            self matches ParseError::RepeatCount(e) ==> (e.found < e.expected_min
                || e.expected_max is Some),
        ensures
            r@ == self.text(),
    {
        match self {
            ParseError::UnrecognizedToken(e) => e.to_string(),
            ParseError::UnexpectedToken(e) => e.to_string(),
            ParseError::ParseBoundary(e) => e.to_string(),
            ParseError::MatchBracket(e) => e.to_string(),
            ParseError::RepeatCount(e) => e.to_string(),
            ParseError::Recover(e) => e.to_string(),
            ParseError::Other(m) => m.clone(),
        }
    }

    /// The message of the error's display.
    pub open spec fn message_text(self) -> Seq<char> {
        match self {
            ParseError::UnrecognizedToken(_) => "unrecognized token"@,
            ParseError::UnexpectedToken(_) => "unexpected token"@,
            ParseError::ParseBoundary(_) => "incomplete parse"@,
            ParseError::MatchBracket(e) => e.message_text(),
            ParseError::RepeatCount(_) => "invalid item count"@,
            ParseError::Recover(_) => "unable to recover from previous error"@,
            ParseError::Other(m) => m@,
        }
    }

    /// Converts the error into a `SourceError` attached to the given source
    /// text. An error without spans is displayed by its description alone.
    pub fn into_source_error<'text>(self, source_text: SourceText<'text>) -> (r: SourceError<'text>)
        requires
            self.displayable(source_text),
        ensures
            r.source_text == source_text,
            self matches ParseError::Recover(_) ==> r.code_display.message@
                == "unable to recover from previous error"@ && r.code_display.span_displays@.len()
                == 0,
            self matches ParseError::Other(m) ==> r.code_display.message@ == m@
                && r.code_display.span_displays@.len() == 0,
            !(self is Recover || self is Other) ==> r.code_display.span_displays@.len() == 1,
            r.code_display.message@ == self.message_text(),
            r.cause matches Some(c) && c@ == self.text(),
    {
        match self {
            ParseError::UnrecognizedToken(e) => e.into_source_error(source_text),
            ParseError::UnexpectedToken(e) => e.into_source_error(source_text),
            ParseError::ParseBoundary(e) => e.into_source_error(source_text),
            ParseError::MatchBracket(e) => e.into_source_error(source_text),
            ParseError::RepeatCount(e) => e.into_source_error(source_text),
            ParseError::Recover(e) => {
                let m = e.to_string();
                let c = e.to_string();
                SourceError::new(source_text, m).with_cause(c)
            },
            ParseError::Other(m) => {
                let c = m.clone();
                SourceError::new(source_text, m).with_cause(c)
            },
        }
    }
}

} // verus!
