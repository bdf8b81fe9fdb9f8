//! General-purpose errors supporting formatted source text display.
use vstd::prelude::*;
use crate::display::CodeDisplay;
use crate::display::SpanDisplay;
use crate::message::MessageType;
use crate::note::Note;
use crate::source::SourceText;
use crate::source::SourceTextOwned;

verus! {

/// A general-purpose error supporting formatted source text display. The
/// cause, where there is one, is kept as its description.
#[derive(Debug, Clone)]
pub struct SourceError<'text> {
    /// The source text.
    pub source_text: SourceText<'text>,
    /// The `CodeDisplay` used to format the error output.
    pub code_display: CodeDisplay,
    /// The description of the underlying cause of the error.
    pub cause: Option<String>,
}

/// An error supporting formatted source text display, owning its text.
#[derive(Debug)]
pub struct SourceErrorOwned {
    /// The source text.
    pub source_text: SourceTextOwned,
    /// The `CodeDisplay` used to format the error output.
    pub code_display: CodeDisplay,
    /// The description of the underlying cause of the error.
    pub cause: Option<String>,
}

/// A source error that borrows its text.
pub type SourceErrorRef<'text> = SourceError<'text>;

impl<'text> SourceError<'text> {
    /// Constructs a new error display with the given source text and
    /// message.
    pub fn new(source_text: SourceText<'text>, message: String) -> (r: SourceError<'text>)
        ensures
            r.source_text == source_text,
            r.code_display.message == message,
            r.code_display.message_type == MessageType::Error,
            r.code_display.code_id is None,
            r.code_display.span_displays@.len() == 0,
            r.code_display.notes@.len() == 0,
            r.code_display.color_enabled,
            r.cause is None,
    {
        SourceError {
            source_text,
            code_display: CodeDisplay::new(message).with_error_type(),
            cause: None,
        }
    }

    /// Returns the error with the given cause.
    pub fn with_cause(self, cause: String) -> (r: SourceError<'text>)
        ensures
            r == (SourceError { cause: Some(cause), ..self }),
    {
        SourceError { cause: Some(cause), ..self }
    }

    /// Returns the error with the given color enablement.
    pub fn with_color(self, color_enabled: bool) -> (r: SourceError<'text>)
        ensures
            r == (SourceError {
                code_display: CodeDisplay { color_enabled, ..self.code_display },
                ..self
            }),
    {
        let mut s = self;
        s.code_display.color_enabled = color_enabled;
        s
    }

    /// Returns the error with the given note appended.
    pub fn with_note(self, note: Note) -> (r: SourceError<'text>)
        ensures
            r.code_display.notes@ == self.code_display.notes@.push(note),
            r == (SourceError {
                code_display: CodeDisplay { notes: r.code_display.notes, ..self.code_display },
                ..self
            }),
    {
        let mut s = self;
        s.code_display.push_note(note);
        s
    }

    /// Appends the given note.
    pub fn push_note(&mut self, note: Note)
        ensures
            final(self).code_display.notes@ == old(self).code_display.notes@.push(note),
            *final(self) == (SourceError {
                code_display: CodeDisplay {
                    notes: final(self).code_display.notes,
                    ..old(self).code_display
                },
                ..*old(self)
            }),
    {
        self.code_display.push_note(note);
    }

    /// Returns the error with the given span display appended.
    pub fn with_span_display(self, span_display: SpanDisplay) -> (r: SourceError<'text>)
        ensures
            r.code_display.span_displays@ == self.code_display.span_displays@.push(span_display),
            r == (SourceError {
                code_display: CodeDisplay {
                    span_displays: r.code_display.span_displays,
                    ..self.code_display
                },
                ..self
            }),
    {
        let mut s = self;
        s.code_display.push_span_display(span_display);
        s
    }

    /// Appends the given span display.
    pub fn push_span_display(&mut self, span_display: SpanDisplay)
        ensures
            final(self).code_display.span_displays@ == old(self).code_display.span_displays@.push(
                span_display,
            ),
            *final(self) == (SourceError {
                code_display: CodeDisplay {
                    span_displays: final(self).code_display.span_displays,
                    ..old(self).code_display
                },
                ..*old(self)
            }),
    {
        self.code_display.push_span_display(span_display);
    }

    /// Returns the error's message.
    pub fn message(&self) -> (r: &str)
        ensures
            r@ == self.code_display.message@,
    {
        self.code_display.message()
    }

    /// Converts the error into one that owns a copy of its text.
    pub fn into_owned(self) -> (r: SourceErrorOwned)
        ensures
            r.source_text.text@ == self.source_text.text@,
            r.source_text.metrics == self.source_text.metrics,
            r.source_text.offset == self.source_text.offset,
            r.code_display == self.code_display,
            r.cause == self.cause,
    {
        SourceErrorOwned {
            source_text: self.source_text.to_owned(),
            code_display: self.code_display,
            cause: self.cause,
        }
    }
}

impl SourceErrorOwned {
    /// Constructs a new error display with the given source text and
    /// message.
    pub fn new(source_text: SourceTextOwned, message: String) -> (r: SourceErrorOwned)
        ensures
            r.source_text == source_text,
            r.code_display.message == message,
            r.code_display.message_type == MessageType::Error,
            r.code_display.code_id is None,
            r.code_display.span_displays@.len() == 0,
            r.code_display.notes@.len() == 0,
            r.code_display.color_enabled,
            r.cause is None,
    {
        SourceErrorOwned {
            source_text,
            code_display: CodeDisplay::new(message).with_error_type(),
            cause: None,
        }
    }

    /// Returns the error with the given cause.
    pub fn with_cause(self, cause: String) -> (r: SourceErrorOwned)
        ensures
            r.source_text == self.source_text,
            r.code_display == self.code_display,
            r.cause == Some(cause),
    {
        SourceErrorOwned { cause: Some(cause), ..self }
    }

    /// Returns the error with the given color enablement.
    pub fn with_color(self, color_enabled: bool) -> (r: SourceErrorOwned)
        ensures
            r.source_text == self.source_text,
            r.code_display == (CodeDisplay { color_enabled, ..self.code_display }),
            r.cause == self.cause,
    {
        let mut s = self;
        s.code_display.color_enabled = color_enabled;
        s
    }

    /// Returns the error with the given note appended.
    pub fn with_note(self, note: Note) -> (r: SourceErrorOwned)
        ensures
            r.source_text == self.source_text,
            r.code_display.notes@ == self.code_display.notes@.push(note),
            r.code_display == (CodeDisplay { notes: r.code_display.notes, ..self.code_display }),
            r.cause == self.cause,
    {
        let mut s = self;
        s.code_display.push_note(note);
        s
    }

    /// Appends the given note.
    pub fn push_note(&mut self, note: Note)
        ensures
            final(self).source_text == old(self).source_text,
            final(self).code_display.notes@ == old(self).code_display.notes@.push(note),
            final(self).code_display == (CodeDisplay {
                notes: final(self).code_display.notes,
                ..old(self).code_display
            }),
            final(self).cause == old(self).cause,
    {
        self.code_display.push_note(note);
    }

    /// Returns the error with the given span display appended.
    pub fn with_span_display(self, span_display: SpanDisplay) -> (r: SourceErrorOwned)
        ensures
            r.source_text == self.source_text,
            r.code_display.span_displays@ == self.code_display.span_displays@.push(span_display),
            r.code_display == (CodeDisplay {
                span_displays: r.code_display.span_displays,
                ..self.code_display
            }),
            r.cause == self.cause,
    {
        let mut s = self;
        s.code_display.push_span_display(span_display);
        s
    }

    /// Appends the given span display.
    pub fn push_span_display(&mut self, span_display: SpanDisplay)
        ensures
            final(self).source_text == old(self).source_text,
            final(self).code_display.span_displays@ == old(self).code_display.span_displays@.push(
                span_display,
            ),
            final(self).code_display == (CodeDisplay {
                span_displays: final(self).code_display.span_displays,
                ..old(self).code_display
            }),
            final(self).cause == old(self).cause,
    {
        self.code_display.push_span_display(span_display);
    }

    /// Returns the error's message.
    pub fn message(&self) -> (r: &str)
        ensures
            r@ == self.code_display.message@,
    {
        self.code_display.message()
    }
}

} // verus!
