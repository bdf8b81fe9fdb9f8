//! Parse results: the value and lexer state of a successful parse, and the
//! error and lexer state of a failed one.
use vstd::prelude::*;
use crate::error::ParseError;
use crate::fmt::span_text;
use crate::lexer::Lexer;
use crate::lexer::Scanner;
use crate::span::Span;
use crate::span::enclosing;

verus! {

/// A successful parse: the parsed value and the lexer state for continuing
/// after it.
#[derive(Clone)]
pub struct Success<'text, Sc: Scanner, V> {
    /// The lexer state for continuing after the parse.
    pub lexer: Lexer<'text, Sc>,
    /// The parsed value.
    pub value: V,
}

/// The result of a parse.
pub type ParseResult<'text, Sc, V> = Result<
    Success<'text, Sc, V>,
    Box<ParseError<<Sc as Scanner>::Token>>,
>;

/// Operations on parse results.
pub trait ParseResultExt<'text, Sc: Scanner, V>: Sized {
    /// Applies `f` to the value of a successful parse.
    fn map_value<F: FnOnce(V) -> U, U>(self, f: F) -> ParseResult<'text, Sc, U>
        requires
            forall|v: V| f.requires((v,)),
    ;

    /// Applies `f` to the lexer of a successful parse.
    fn map_lexer<F: FnOnce(Lexer<'text, Sc>) -> Lexer<'text, Sc>>(self, f: F) -> Self
        requires
            forall|l: Lexer<'text, Sc>| f.requires((l,)),
    ;
}

impl<'text, Sc: Scanner, V> ParseResultExt<'text, Sc, V> for ParseResult<'text, Sc, V> {
    fn map_value<F: FnOnce(V) -> U, U>(self, f: F) -> (r: ParseResult<'text, Sc, U>)
        ensures
            match self {
                Ok(s) => r matches Ok(t) && f.ensures((s.value,), t.value) && t.lexer == s.lexer,
                Err(e) => r == Err::<Success<'text, Sc, U>, _>(e),
            },
    {
        match self {
            Ok(succ) => Ok(succ.map_value(f)),
            Err(fail) => Err(fail),
        }
    }

    fn map_lexer<F: FnOnce(Lexer<'text, Sc>) -> Lexer<'text, Sc>>(self, f: F) -> (r: Self)
        ensures
            match self {
                Ok(s) => r matches Ok(t) && f.ensures((s.lexer,), t.lexer) && t.value == s.value,
                Err(e) => r == Err::<Success<'text, Sc, V>, _>(e),
            },
    {
        match self {
            Ok(Success { value, lexer }) => Ok(Success { value, lexer: f(lexer) }),
            Err(fail) => Err(fail),
        }
    }
}

impl<'text, Sc: Scanner, V> Success<'text, Sc, V> {
    /// Constructs a new `Success` containing the given value and lexer
    /// state.
    pub fn new(value: V, lexer: Lexer<'text, Sc>) -> (r: Self)
        ensures
            r.value == value,
            r.lexer == lexer,
    {
        Success { value, lexer }
    }

    /// Consumes the success and returns its parsed value.
    pub fn into_value(self) -> (r: V)
        ensures
            r == self.value,
    {
        self.value
    }

    /// Converts the success into one whose value is `f` applied to this
    /// one's value.
    pub fn map_value<F: FnOnce(V) -> U, U>(self, f: F) -> (r: Success<'text, Sc, U>)
        requires
            f.requires((self.value,)),
        ensures
            f.ensures((self.value,), r.value),
            r.lexer == self.lexer,
    {
        Success { value: f(self.value), lexer: self.lexer }
    }

    /// Splits the success into its parsed value and a success holding the
    /// rest.
    pub fn take_value(self) -> (r: (V, Success<'text, Sc, ()>))
        ensures
            r.0 == self.value,
            r.1.lexer == self.lexer,
    {
        (self.value, Success { value: (), lexer: self.lexer })
    }

    /// Taking the value out of a success and putting it back into what is
    /// left gives the success again: the value and the lexer are kept.
    pub proof fn lemma_take_value_restores(self, v: V, rest: Success<'text, Sc, ()>)
        requires
            v == self.value,
            rest.lexer == self.lexer,
        ensures
            (Success { lexer: rest.lexer, value: v }) == self,
    {
    }

    /// Returns the parsed value and the parse span written as text.
    pub fn value_span_display(self) -> (r: (V, String))
        ensures
            r.0 == self.value,
            r.1@ == span_text(enclosing(self.lexer.parse_start, self.lexer.cursor)),
    {
        let s = self.lexer.parse_span().to_string();
        (self.value, s)
    }
}

/// A value together with the span of its source text.
#[derive(Debug, Clone, Copy, PartialEq, Eq, Hash)]
pub struct Spanned<T> {
    /// The span of the value's source text.
    pub span: Span,
    /// The parsed value.
    pub value: T,
}

impl<T> Spanned<T> {
    /// Converts the spanned value into one whose value is `f` applied to
    /// this one's value.
    pub fn map_value<F: FnOnce(T) -> U, U>(self, f: F) -> (r: Spanned<U>)
        requires
            f.requires((self.value,)),
        ensures
            f.ensures((self.value,), r.value),
            r.span == self.span,
    {
        Spanned { span: self.span, value: f(self.value) }
    }
}

/// A failed parse: the parse error, the errors it was raised within, and
/// the lexer state.
pub struct Failure<'text, Sc: Scanner> {
    /// The lexer state for continuing after the parse.
    pub lexer: Lexer<'text, Sc>,
    /// The parse error.
    pub parse_error: ParseError<Sc::Token>,
    /// The errors applied as context around the parse error, innermost
    /// first.
    pub contexts: Vec<ParseError<Sc::Token>>,
}

impl<'text, Sc: Scanner> Failure<'text, Sc> {
    /// Constructs a new failure containing the given parse error and lexer
    /// state.
    pub fn new(parse_error: ParseError<Sc::Token>, lexer: Lexer<'text, Sc>) -> (r: Self)
        ensures
            r.parse_error == parse_error,
            r.lexer == lexer,
            r.contexts@.len() == 0,
    {
        Failure { lexer, parse_error, contexts: Vec::new() }
    }

    /// Returns the failure with the given error applied as context around
    /// the contained error.
    pub fn with_context(self, context: ParseError<Sc::Token>) -> (r: Self)
        ensures
            r.lexer == self.lexer,
            r.parse_error == self.parse_error,
            r.contexts@ == self.contexts@.push(context),
    {
        let mut s = self;
        s.push_context(context);
        s
    }

    /// Applies the given error as context around the contained error.
    pub fn push_context(&mut self, context: ParseError<Sc::Token>)
        ensures
            final(self).lexer == old(self).lexer,
            final(self).parse_error == old(self).parse_error,
            final(self).contexts@ == old(self).contexts@.push(context),
    {
        self.contexts.push(context);
    }

    /// Returns the description of the error and the parse span written as
    /// text.
    pub fn error_span_display(&self) -> (r: (String, String)) where
        Sc::Token: crate::error::lexer::Describe,

        requires
            self.parse_error matches ParseError::RepeatCount(e) ==> (e.found < e.expected_min
                || e.expected_max is Some),
        ensures
            r.0@ == self.parse_error.text(),
            r.1@ == span_text(enclosing(self.lexer.parse_start, self.lexer.cursor)),
    {
        (self.parse_error.to_string(), self.lexer.parse_span().to_string())
    }
}

} // verus!
