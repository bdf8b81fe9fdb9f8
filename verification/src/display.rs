//! Displaying source text with spans, notes and highlights.
use vstd::prelude::*;
use crate::highlight::Highlight;
use crate::message::MessageType;
use crate::metrics::ColumnMetrics;
use crate::note::Note;
use crate::position::Pos;
use crate::source::SourceText;
use crate::span::Span;

verus! {

/// A structure for displaying source text with spans, notes, and
/// highlights.
#[derive(Debug, Clone)]
pub struct CodeDisplay {
    /// The top-level description for all of the spans.
    pub message: String,
    /// The overall message type for all of the spans.
    pub message_type: MessageType,
    /// An error number or warning code to print.
    pub code_id: Option<&'static str>,
    /// The spans to display.
    pub span_displays: Vec<SpanDisplay>,
    /// Notes to append after the displayed spans.
    pub notes: Vec<Note>,
    /// Whether colors are enabled during writing.
    pub color_enabled: bool,
}

/// A single span of source text with notes and highlights.
#[derive(Debug, Clone)]
pub struct SpanDisplay {
    /// The name of the file or data that is being displayed.
    pub source_name: Option<String>,
    /// The column metrics for the source.
    pub metrics: ColumnMetrics,
    /// The full text span of the displayed source.
    pub span: Span,
    /// The subsets of the displayed text to highlight.
    pub highlights: Vec<Highlight>,
    /// Notes to append to the source display.
    pub notes: Vec<Note>,
    /// The width of the line number gutter.
    pub gutter_width: u8,
    /// Whether to allow line omissions within the source display.
    pub allow_omissions: bool,
}

/// The number of decimal digits needed to write the numbers up to `n`:
/// the least `k` with `10^k >= n`.
pub open spec fn ceil_log10(n: nat) -> nat
    decreases n,
{
    if n <= 1 {
        0
    } else {
        1 + ceil_log10(((n + 9) / 10) as nat)
    }
}

/// The width of the line number gutter for a span ending on `line`.
pub open spec fn gutter_width_for(line: usize) -> u8 {
    if ceil_log10(line as nat) > 1 {
        if ceil_log10(line as nat) > 255 {
            255
        } else {
            ceil_log10(line as nat) as u8
        }
    } else {
        1
    }
}

/// Returns the width of the line number gutter for a span ending on `line`:
/// the number of decimal digits of `line - 1`, and at least one.
pub fn gutter_width(line: usize) -> (r: u8)
    ensures
        r == gutter_width_for(line),
{
    let mut n = line;
    let mut k: usize = 0;
    while n > 1
        invariant
            k + ceil_log10(n as nat) == ceil_log10(line as nat),
            k + n <= line,
        decreases n,
    {
        let up: usize = if n % 10 == 0 {
            0
        } else {
            1
        };
        n = n / 10 + up;
        k = k + 1;
    }
    if k > 1 {
        if k > 255 {
            255
        } else {
            k as u8
        }
    } else {
        1
    }
}

impl CodeDisplay {
    /// Constructs a new info display with the given message.
    pub fn new(message: String) -> (r: CodeDisplay)
        ensures
            r.message == message,
            r.message_type == MessageType::Info,
            r.code_id is None,
            r.span_displays@.len() == 0,
            r.notes@.len() == 0,
            r.color_enabled,
    {
        CodeDisplay {
            message,
            message_type: MessageType::Info,
            code_id: None,
            span_displays: Vec::new(),
            notes: Vec::new(),
            color_enabled: true,
        }
    }

    /// Returns the display with the given message.
    pub fn with_message(self, message: String) -> (r: CodeDisplay)
        ensures
            r == (CodeDisplay { message, ..self }),
    {
        CodeDisplay { message, ..self }
    }

    /// Returns the display with the given color enablement.
    pub fn with_color(self, color_enabled: bool) -> (r: CodeDisplay)
        ensures
            r == (CodeDisplay { color_enabled, ..self }),
    {
        CodeDisplay { color_enabled, ..self }
    }

    /// Returns the display with the error message type.
    pub fn with_error_type(self) -> (r: CodeDisplay)
        ensures
            r == (CodeDisplay { message_type: MessageType::Error, ..self }),
    {
        CodeDisplay { message_type: MessageType::Error, ..self }
    }

    /// Returns the display with the warning message type.
    pub fn with_warning_type(self) -> (r: CodeDisplay)
        ensures
            r == (CodeDisplay { message_type: MessageType::Warning, ..self }),
    {
        CodeDisplay { message_type: MessageType::Warning, ..self }
    }

    /// Returns the display with the note message type.
    pub fn with_note_type(self) -> (r: CodeDisplay)
        ensures
            r == (CodeDisplay { message_type: MessageType::Note, ..self }),
    {
        CodeDisplay { message_type: MessageType::Note, ..self }
    }

    /// Returns the display with the help message type.
    pub fn with_help_type(self) -> (r: CodeDisplay)
        ensures
            r == (CodeDisplay { message_type: MessageType::Help, ..self }),
    {
        CodeDisplay { message_type: MessageType::Help, ..self }
    }

    /// Returns the display with the given message type.
    pub fn with_message_type(self, message_type: MessageType) -> (r: CodeDisplay)
        ensures
            r == (CodeDisplay { message_type, ..self }),
    {
        CodeDisplay { message_type, ..self }
    }

    /// Returns the display with the given error code id.
    pub fn with_code_id(self, code_id: Option<&'static str>) -> (r: CodeDisplay)
        ensures
            r == (CodeDisplay { code_id, ..self }),
    {
        CodeDisplay { code_id, ..self }
    }

    /// Returns the display with the given span display appended.
    pub fn with_span_display(self, span_display: SpanDisplay) -> (r: CodeDisplay)
        ensures
            r.span_displays@ == self.span_displays@.push(span_display),
            r == (CodeDisplay { span_displays: r.span_displays, ..self }),
    {
        let mut s = self;
        s.span_displays.push(span_display);
        s
    }

    /// Returns the display with the given note appended.
    pub fn with_note(self, note: Note) -> (r: CodeDisplay)
        ensures
            r.notes@ == self.notes@.push(note),
            r == (CodeDisplay { notes: r.notes, ..self }),
    {
        let mut s = self;
        s.notes.push(note);
        s
    }

    /// Appends the given span display.
    pub fn push_span_display(&mut self, span_display: SpanDisplay)
        ensures
            final(self).span_displays@ == old(self).span_displays@.push(span_display),
            *final(self) == (CodeDisplay { span_displays: final(self).span_displays, ..*old(self) }),
    {
        self.span_displays.push(span_display);
    }

    /// Appends the given note.
    pub fn push_note(&mut self, note: Note)
        ensures
            final(self).notes@ == old(self).notes@.push(note),
            *final(self) == (CodeDisplay { notes: final(self).notes, ..*old(self) }),
    {
        self.notes.push(note);
    }

    /// Returns the message.
    pub fn message(&self) -> (r: &str)
        ensures
            r@ == self.message@,
    {
        self.message.as_str()
    }
}

/// Copies a string slice into a new string (`str::to_owned`).
fn owned(s: &str) -> (r: String)
    ensures
        r@ == s@,
{
    s.to_owned()
}

impl SpanDisplay {
    /// Constructs a new display of the given span, widened to whole lines.
    pub fn new(source: SourceText<'_>, span: Span) -> (r: SpanDisplay)
        requires
            span.widen_ok(source),
        ensures
            match source.name {
                Some(n) => r.source_name matches Some(m) && m@ == n@,
                None => r.source_name is None,
            },
            r.metrics == source.metrics,
            r.span == span.widen_spec(source),
            r.highlights@.len() == 0,
            r.notes@.len() == 0,
            r.gutter_width == gutter_width_for(span.page.end.line),
            r.allow_omissions,
    {
        let gw = gutter_width(span.end().page.line);
        let name = match source.name() {
            Some(n) => Some(owned(n)),
            None => None,
        };
        SpanDisplay {
            source_name: name,
            metrics: source.column_metrics(),
            span: span.widen_to_line(source),
            highlights: Vec::new(),
            notes: Vec::new(),
            allow_omissions: true,
            gutter_width: gw,
        }
    }

    /// Constructs a new display of the given span with an error highlight
    /// of the span carrying the message.
    pub fn new_error_highlight(source: SourceText<'_>, span: Span, message: String) -> (r:
        SpanDisplay)
        requires
            span.widen_ok(source),
        ensures
            r.span == span.widen_spec(source),
            r.highlights@ == seq![
                Highlight {
                    span,
                    start_message: None,
                    end_message: Some(message),
                    message_type: MessageType::Error,
                    allow_omissions: true,
                },
            ],
            r.notes@.len() == 0,
            r.gutter_width == gutter_width_for(span.page.end.line),
    {
        SpanDisplay::new(source, span).with_highlight(Highlight::new(span, message).with_error_type())
    }

    /// Returns the display with the given source name.
    pub fn with_source_name(self, name: String) -> (r: SpanDisplay)
        ensures
            r == (SpanDisplay { source_name: Some(name), ..self }),
    {
        SpanDisplay { source_name: Some(name), ..self }
    }

    /// Returns the display with the given highlight attached.
    pub fn with_highlight(self, highlight: Highlight) -> (r: SpanDisplay)
        ensures
            r.highlights@ == self.highlights@.push(highlight),
            r == (SpanDisplay { highlights: r.highlights, ..self }),
    {
        let mut s = self;
        s.highlights.push(highlight);
        s
    }

    /// Returns the display with the given note attached.
    pub fn with_note(self, note: Note) -> (r: SpanDisplay)
        ensures
            r.notes@ == self.notes@.push(note),
            r == (SpanDisplay { notes: r.notes, ..self }),
    {
        let mut s = self;
        s.notes.push(note);
        s
    }
}

} // verus!
