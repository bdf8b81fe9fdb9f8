//! Errors of delimited parses: boundaries, brackets and item counts.
use vstd::prelude::*;
use crate::display::SpanDisplay;
use crate::error::source::SourceError;
use crate::fmt::decimal;
use crate::fmt::push_decimal;
use crate::fmt::push_span;
use crate::fmt::push_str;
use crate::fmt::span_text;
use crate::highlight::Highlight;
use crate::message::MessageType;
use crate::position::Pos;
use crate::position::pos_le;
use crate::position::pos_lt;
use crate::source::SourceText;
use crate::span::Span;
use crate::span::enclosing;
use crate::span::pos_max;
use crate::span::pos_min;

verus! {

/// An error generated when a successful parse does not consume as much
/// text as required.
#[derive(Debug, Clone, Copy, PartialEq, Eq, Structural)]
pub struct ParseBoundaryError {
    /// The span of the parse up to the expected parse boundary.
    pub error_span: Span,
    /// The expected end position of the parse.
    pub expected_end_pos: Pos,
}

impl ParseBoundaryError {
    /// Returns the full span of the parsed and unexpected text.
    pub fn full_span(&self) -> (r: Span)
        ensures
            r == enclosing(self.error_span.start_pos(), self.expected_end_pos),
    {
        Span::new_enclosing(self.error_span.start(), self.expected_end_pos)
    }

    /// Returns the span of the unexpected text.
    pub fn unparsed_span(&self) -> (r: Span)
        ensures
            r == enclosing(self.error_span.end_pos(), self.expected_end_pos),
    {
        Span::new_enclosing(self.error_span.end(), self.expected_end_pos)
    }

    /// The description of the error.
    pub open spec fn text(self) -> Seq<char> {
        "incomplete parse: unexpected text at "@ + span_text(
            enclosing(self.error_span.end_pos(), self.expected_end_pos),
        )
    }

    /// Returns the description of the error.
    pub fn to_string(&self) -> (r: String)
        ensures
            r@ == self.text(),
    {
        let mut s = String::new();
        push_str(&mut s, "incomplete parse: unexpected text at ");
        push_span(&mut s, self.unparsed_span());
        assert(s@ =~= self.text());
        s
    }

    /// Converts the error into a `SourceError` attached to the given source
    /// text, highlighting the unexpected text.
    pub fn into_source_error<'text>(self, source_text: SourceText<'text>) -> (r: SourceError<'text>)
        requires
            enclosing(self.error_span.start_pos(), self.expected_end_pos).widen_ok(source_text),
        ensures
            r.source_text == source_text,
            r.code_display.message@ == "incomplete parse"@,
            r.code_display.span_displays@.len() == 1,
            r.code_display.span_displays@[0].span == enclosing(
                self.error_span.start_pos(),
                self.expected_end_pos,
            ).widen_spec(source_text),
            r.code_display.span_displays@[0].highlights@.len() == 1,
            r.code_display.span_displays@[0].highlights@[0].span == enclosing(
                self.error_span.end_pos(),
                self.expected_end_pos,
            ),
            r.code_display.span_displays@[0].highlights@[0].end_message matches Some(m) && m@
                == "unexpected text"@,
            r.code_display.span_displays@[0].highlights@[0].message_type == MessageType::Error,
            r.cause matches Some(c) && c@ == self.text(),
    {
        let hl = Highlight::new(self.unparsed_span(), String::from_str("unexpected text")).with_error_type();
        let d = SpanDisplay::new(source_text, self.full_span()).with_highlight(hl);
        SourceError::new(source_text, String::from_str("incomplete parse")).with_span_display(
            d,
        ).with_cause(self.to_string())
    }
}

/// An error generated when brackets are not matched.
#[derive(Debug, Clone, Copy, PartialEq, Eq, Structural)]
pub enum MatchBracketError {
    /// No open bracket was found.
    NoneFound {
        /// Where the open bracket was expected.
        expected_start: Span,
    },
    /// An open bracket was not closed.
    Unclosed {
        /// The open bracket.
        found_start: Span,
    },
    /// A close bracket was not opened.
    Unopened {
        /// The close bracket.
        found_end: Span,
    },
    /// A close bracket does not match its open bracket.
    Mismatch {
        /// The open bracket.
        found_start: Span,
        /// The close bracket.
        found_end: Span,
    },
}

impl MatchBracketError {
    /// The full span of the error.
    pub open spec fn full_span_spec(self) -> Span {
        match self {
            MatchBracketError::NoneFound { expected_start } => expected_start,
            MatchBracketError::Unclosed { found_start } => found_start,
            MatchBracketError::Unopened { found_end } => found_end,
            MatchBracketError::Mismatch { found_start, found_end } => enclosing(
                pos_min(found_start.start_pos(), found_end.start_pos()),
                pos_max(found_start.end_pos(), found_end.end_pos()),
            ),
        }
    }

    /// Returns the full span of the error.
    pub fn full_span(&self) -> (r: Span)
        ensures
            r == self.full_span_spec(),
    {
        match self {
            MatchBracketError::NoneFound { expected_start } => *expected_start,
            MatchBracketError::Unclosed { found_start } => *found_start,
            MatchBracketError::Unopened { found_end } => *found_end,
            MatchBracketError::Mismatch { found_start, found_end } => found_start.enclose(
                *found_end,
            ),
        }
    }

    /// The description of the error.
    pub open spec fn text(self) -> Seq<char> {
        match self {
            MatchBracketError::NoneFound { expected_start } =>
                "bracket error: expected open bracket at "@ + span_text(expected_start),
            MatchBracketError::Unclosed { found_start } =>
                "bracket error: unmatched open bracket at "@ + span_text(found_start),
            MatchBracketError::Unopened { found_end } =>
                "bracket error: unmatched close bracket at "@ + span_text(found_end),
            MatchBracketError::Mismatch { found_start, found_end } =>
                "bracket error: mismatched brackets at "@ + span_text(found_start) + " and "@
                    + span_text(found_end),
        }
    }

    /// Returns the description of the error.
    pub fn to_string(&self) -> (r: String)
        ensures
            r@ == self.text(),
    {
        let mut s = String::new();
        match self {
            MatchBracketError::NoneFound { expected_start } => {
                push_str(&mut s, "bracket error: expected open bracket at ");
                push_span(&mut s, *expected_start);
            },
            MatchBracketError::Unclosed { found_start } => {
                push_str(&mut s, "bracket error: unmatched open bracket at ");
                push_span(&mut s, *found_start);
            },
            MatchBracketError::Unopened { found_end } => {
                push_str(&mut s, "bracket error: unmatched close bracket at ");
                push_span(&mut s, *found_end);
            },
            MatchBracketError::Mismatch { found_start, found_end } => {
                push_str(&mut s, "bracket error: mismatched brackets at ");
                push_span(&mut s, *found_start);
                push_str(&mut s, " and ");
                push_span(&mut s, *found_end);
            },
        }
        assert(s@ =~= self.text());
        s
    }

    /// Whether the spans of the error can be displayed in the source text.
    pub open spec fn displayable(self, source_text: SourceText<'_>) -> bool {
        match self {
            MatchBracketError::NoneFound { expected_start } => expected_start.widen_ok(
                source_text,
            ),
            MatchBracketError::Unclosed { found_start } => found_start.widen_ok(source_text),
            MatchBracketError::Unopened { found_end } => found_end.widen_ok(source_text),
            MatchBracketError::Mismatch { found_start, found_end } => found_start.widen_ok(
                source_text,
            ),
        }
    }

    /// The message of the error display.
    pub open spec fn message_text(self) -> Seq<char> {
        match self {
            MatchBracketError::NoneFound { .. } => "expected open bracket"@,
            MatchBracketError::Unclosed { .. } => "unmatched open bracket"@,
            MatchBracketError::Unopened { .. } => "unmatched close bracket"@,
            MatchBracketError::Mismatch { .. } => "mismatched brackets"@,
        }
    }

    /// The span of the bracket that the error display points at first.
    pub open spec fn primary_span(self) -> Span {
        match self {
            MatchBracketError::NoneFound { expected_start } => expected_start,
            MatchBracketError::Unclosed { found_start } => found_start,
            MatchBracketError::Unopened { found_end } => found_end,
            MatchBracketError::Mismatch { found_start, .. } => found_start,
        }
    }

    /// The message at the bracket that the error display points at first.
    pub open spec fn primary_text(self) -> Seq<char> {
        match self {
            MatchBracketError::NoneFound { .. } => "bracket expected here"@,
            MatchBracketError::Unclosed { .. } => "this bracket is not closed"@,
            MatchBracketError::Unopened { .. } => "this bracket has no matching open"@,
            MatchBracketError::Mismatch { .. } => "the bracket here"@,
        }
    }

    /// Converts the error into a `SourceError` attached to the given source
    /// text, highlighting the brackets concerned.
    pub fn into_source_error<'text>(self, source_text: SourceText<'text>) -> (r: SourceError<'text>)
        requires
            self.displayable(source_text),
        ensures
            r.source_text == source_text,
            r.code_display.message@ == self.message_text(),
            r.code_display.message_type == MessageType::Error,
            r.code_display.notes@.len() == 0,
            r.code_display.span_displays@.len() == 1,
            r.code_display.span_displays@[0].span == self.primary_span().widen_spec(source_text),
            r.code_display.span_displays@[0].highlights@.len() == match self {
                MatchBracketError::Mismatch { .. } => 2int,
                _ => 1int,
            },
            r.code_display.span_displays@[0].highlights@[0].span == self.primary_span(),
            r.code_display.span_displays@[0].highlights@[0].end_message matches Some(m) && m@
                == self.primary_text(),
            r.code_display.span_displays@[0].highlights@[0].message_type == MessageType::Error,
            self matches MatchBracketError::Mismatch { found_end, .. } ==> {
                &&& r.code_display.span_displays@[0].highlights@[1].span == found_end
                &&& r.code_display.span_displays@[0].highlights@[1].end_message matches Some(m)
                    && m@ == "... does not match the closing bracket here"@
                &&& r.code_display.span_displays@[0].highlights@[1].message_type
                    == MessageType::Error
            },
            r.cause matches Some(c) && c@ == self.text(),
    {
        proof {
            reveal_strlit("bracket expected here");
            reveal_strlit("this bracket is not closed");
            reveal_strlit("this bracket has no matching open");
            reveal_strlit("the bracket here");
            reveal_strlit("... does not match the closing bracket here");
        }
        let cause = self.to_string();
        let source_error = match self {
            MatchBracketError::NoneFound { expected_start } => SourceError::new(
                source_text,
                String::from_str("expected open bracket"),
            ).with_span_display(
                SpanDisplay::new_error_highlight(
                    source_text,
                    expected_start,
                    String::from_str("bracket expected here"),
                ),
            ),
            MatchBracketError::Unclosed { found_start } => SourceError::new(
                source_text,
                String::from_str("unmatched open bracket"),
            ).with_span_display(
                SpanDisplay::new_error_highlight(
                    source_text,
                    found_start,
                    String::from_str("this bracket is not closed"),
                ),
            ),
            MatchBracketError::Unopened { found_end } => SourceError::new(
                source_text,
                String::from_str("unmatched close bracket"),
            ).with_span_display(
                SpanDisplay::new_error_highlight(
                    source_text,
                    found_end,
                    String::from_str("this bracket has no matching open"),
                ),
            ),
            MatchBracketError::Mismatch { found_start, found_end } => SourceError::new(
                source_text,
                String::from_str("mismatched brackets"),
            ).with_span_display(
                SpanDisplay::new_error_highlight(
                    source_text,
                    found_start,
                    String::from_str("the bracket here"),
                ).with_highlight(
                    Highlight::new(
                        found_end,
                        String::from_str("... does not match the closing bracket here"),
                    ).with_error_type(),
                ),
            ),
        };
        source_error.with_cause(cause)
    }
}

/// An error generated when a repeated parse fails to occur the required
/// number of times.
#[derive(Debug, Clone, Copy, PartialEq, Eq, Structural)]
pub struct RepeatCountError {
    /// The span of the parse up to the start of the invalid count.
    pub error_span: Span,
    /// The number of parsed items found.
    pub found: usize,
    /// The minimum expected number of parsed items.
    pub expected_min: usize,
    /// The maximum expected number of parsed items.
    pub expected_max: Option<usize>,
}

/// `item` or `items`, agreeing with the count.
pub open spec fn items_text(n: usize) -> Seq<char> {
    if n == 1 {
        " item"@
    } else {
        " items"@
    }
}

impl RepeatCountError {
    /// The description of the expected and found counts.
    pub open spec fn expected_text(self) -> Seq<char> {
        if self.found < self.expected_min {
            "expected "@ + decimal(self.expected_min as nat) + items_text(self.expected_min)
                + "; found "@ + decimal(self.found as nat)
        } else {
            let max = self.expected_max->0;
            if max == self.expected_min {
                "expected "@ + decimal(max as nat) + items_text(max) + "; found "@ + decimal(
                    self.found as nat,
                )
            } else {
                "expected "@ + decimal(self.expected_min as nat) + " to "@ + decimal(max as nat)
                    + " items"@ + "; found "@ + decimal(self.found as nat)
            }
        }
    }

    /// Returns the description of the expected and found counts.
    pub fn expected_description(&self) -> (r: String)
        requires
            self.found < self.expected_min || self.expected_max is Some,
        ensures
            r@ == self.expected_text(),
    {
        let mut s = String::new();
        push_str(&mut s, "expected ");
        if self.found < self.expected_min {
            push_decimal(&mut s, self.expected_min);
            if self.expected_min == 1 {
                push_str(&mut s, " item");
            } else {
                push_str(&mut s, " items");
            }
        } else {
            let max = match self.expected_max {
                Some(m) => m,
                None => 0,
            };
            if max == self.expected_min {
                push_decimal(&mut s, max);
                if max == 1 {
                    push_str(&mut s, " item");
                } else {
                    push_str(&mut s, " items");
                }
            } else {
                push_decimal(&mut s, self.expected_min);
                push_str(&mut s, " to ");
                push_decimal(&mut s, max);
                push_str(&mut s, " items");
            }
        }
        let ghost mid = s@;
        push_str(&mut s, "; found ");
        push_decimal(&mut s, self.found);
        assert(s@ =~= mid + "; found "@ + decimal(self.found as nat));
        assert(s@ =~= self.expected_text());
        s
    }

    /// Returns the description of the error.
    pub fn to_string(&self) -> (r: String)
        requires
            self.found < self.expected_min || self.expected_max is Some,
        ensures
            r@ == "invalid item count: "@ + self.expected_text(),
    {
        let mut s = String::new();
        push_str(&mut s, "invalid item count: ");
        let d = self.expected_description();
        push_str(&mut s, d.as_str());
        s
    }

    /// Converts the error into a `SourceError` attached to the given source
    /// text, highlighting the span with the expected and found counts.
    pub fn into_source_error<'text>(self, source_text: SourceText<'text>) -> (r: SourceError<'text>)
        requires
            self.found < self.expected_min || self.expected_max is Some,
            self.error_span.widen_ok(source_text),
        ensures
            r.source_text == source_text,
            r.code_display.message@ == "invalid item count"@,
            r.code_display.span_displays@.len() == 1,
            r.code_display.span_displays@[0].span == self.error_span.widen_spec(source_text),
            r.code_display.span_displays@[0].highlights@.len() == 1,
            r.code_display.span_displays@[0].highlights@[0].span == self.error_span,
            r.code_display.span_displays@[0].highlights@[0].end_message matches Some(m) && m@
                == self.expected_text(),
            r.cause matches Some(c) && c@ == "invalid item count: "@ + self.expected_text(),
    {
        let hl = Highlight::new(self.error_span, self.expected_description()).with_error_type();
        let d = SpanDisplay::new(source_text, self.error_span).with_highlight(hl);
        SourceError::new(source_text, String::from_str("invalid item count")).with_span_display(
            d,
        ).with_cause(self.to_string())
    }
}

} // verus!
