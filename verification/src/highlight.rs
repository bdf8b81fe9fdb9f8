//! Highlights: marked subsections of displayed source text.
use vstd::prelude::*;
use crate::fmt::push_char;
use crate::fmt::push_repeat;
use crate::fmt::push_str;
use crate::fmt::repeat_char;
use crate::message::MessageType;
use crate::message::underline_char;
use crate::paint::holds_reset;
use crate::paint::lemma_short_no_reset;
use crate::paint::lemma_writes_chain;
use crate::paint::lemma_writes_extra;
use crate::paint::lemma_writes_nothing;
use crate::paint::put_char;
use crate::paint::put_painted;
use crate::paint::put_repeat;
use crate::paint::put_str;
use crate::paint::writes;
use crate::span::Span;

verus! {

/// A highlighted subsection of a `SpanDisplay`.
#[derive(Debug, Clone)]
pub struct Highlight {
    /// The span to highlight.
    pub span: Span,
    /// The message to display at the start of the span.
    pub start_message: Option<String>,
    /// The message to display at the end of the span.
    pub end_message: Option<String>,
    /// The message type.
    pub message_type: MessageType,
    /// Whether to allow line omissions within the highlighted span.
    pub allow_omissions: bool,
}

/// How far the riser of a multi-line highlight has been drawn.
#[derive(Debug, Clone, Copy, PartialEq, Eq, Hash, Structural)]
pub enum RiserState {
    /// The highlight is on one line and has no riser.
    Unused,
    /// The riser has not started yet.
    Waiting,
    /// The riser is being drawn.
    Started,
    /// The riser has ended.
    Ended,
}

impl Highlight {
    /// Whether neither message holds a terminal reset sequence, so that
    /// painting keeps each message whole.
    pub open spec fn messages_plain(self) -> bool {
        &&& self.start_message matches Some(m) ==> !holds_reset(m@)
        &&& self.end_message matches Some(m) ==> !holds_reset(m@)
    }

    /// Whether the highlight has a message for the given line.
    pub open spec fn has_message_spec(self, line: usize) -> bool {
        (self.span.page.start.line == line && (self.start_message is Some
            || self.span.page.start.column != 0)) || (self.span.page.end.line == line && (
        self.end_message is Some || self.span.page.end.column != 0))
    }

    /// Constructs a new info highlight with the given span and end message.
    pub fn new(span: Span, message: String) -> (r: Highlight)
        ensures
            r == (Highlight {
                span,
                start_message: None,
                end_message: Some(message),
                message_type: MessageType::Info,
                allow_omissions: true,
            }),
    {
        Highlight {
            span,
            start_message: None,
            end_message: Some(message),
            message_type: MessageType::Info,
            allow_omissions: true,
        }
    }

    /// Returns the highlight with the info message type.
    pub fn with_info_type(self) -> (r: Highlight)
        ensures
            r == (Highlight { message_type: MessageType::Info, ..self }),
    {
        Highlight { message_type: MessageType::Info, ..self }
    }

    /// Returns the highlight with the error message type.
    pub fn with_error_type(self) -> (r: Highlight)
        ensures
            r == (Highlight { message_type: MessageType::Error, ..self }),
    {
        Highlight { message_type: MessageType::Error, ..self }
    }

    /// Returns the highlight with the warning message type.
    pub fn with_warning_type(self) -> (r: Highlight)
        ensures
            r == (Highlight { message_type: MessageType::Warning, ..self }),
    {
        Highlight { message_type: MessageType::Warning, ..self }
    }

    /// Returns the highlight with the note message type.
    pub fn with_note_type(self) -> (r: Highlight)
        ensures
            r == (Highlight { message_type: MessageType::Note, ..self }),
    {
        Highlight { message_type: MessageType::Note, ..self }
    }

    /// Returns the highlight with the help message type.
    pub fn with_help_type(self) -> (r: Highlight)
        ensures
            r == (Highlight { message_type: MessageType::Help, ..self }),
    {
        Highlight { message_type: MessageType::Help, ..self }
    }

    /// Returns the highlight with the given message type.
    pub fn with_message_type(self, message_type: MessageType) -> (r: Highlight)
        ensures
            r == (Highlight { message_type, ..self }),
    {
        Highlight { message_type, ..self }
    }

    /// Returns true if the highlight extends across multiple lines.
    pub fn is_multiline(&self) -> (r: bool)
        ensures
            r == (self.span.page.start.line != self.span.page.end.line),
    {
        self.span.page.start.line != self.span.page.end.line
    }

    /// Returns true if the highlight has a message for the given line.
    pub fn has_message_for_line(&self, line: usize) -> (r: bool)
        ensures
            r == self.has_message_spec(line),
    {
        (self.span.page.start.line == line && (self.start_message.is_some()
            || self.span.page.start.column != 0)) || (self.span.page.end.line == line && (
        self.end_message.is_some() || self.span.page.end.column != 0))
    }

    /// The riser symbol drawn for a line, without color, and the riser
    /// state after it.
    pub open spec fn riser_step(self, line: usize, state: RiserState, active: bool) -> (
        Seq<char>,
        RiserState,
    ) {
        match state {
            RiserState::Unused => (Seq::empty(), RiserState::Unused),
            RiserState::Ended => (seq![' '], RiserState::Ended),
            RiserState::Waiting => if !active && self.span.page.start.column == 0
                && !self.has_message_spec(line) {
                (seq!['/'], RiserState::Started)
            } else if self.has_message_spec(line) {
                (seq![' '], RiserState::Started)
            } else {
                (seq![' '], RiserState::Waiting)
            },
            RiserState::Started => if !active && self.span.page.end.column == 0
                && !self.has_message_spec(line) {
                (seq!['\\'], RiserState::Ended)
            } else if active && self.has_message_spec(line) {
                (seq!['|'], RiserState::Ended)
            } else {
                (seq!['|'], RiserState::Started)
            },
        }
    }

    /// Writes the riser symbol for the given line and advances the riser
    /// state. Without color, the text written is that of `riser_step`.
    pub fn write_riser_for_line(
        &self,
        out: &mut String,
        current_line: usize,
        riser_state: &mut RiserState,
        is_active_riser: bool,
        color_enabled: bool,
    )
        ensures
            *final(riser_state) == self.riser_step(current_line, *old(riser_state), is_active_riser).1,
            !color_enabled ==> final(out)@ == old(out)@ + self.riser_step(
                current_line,
                *old(riser_state),
                is_active_riser,
            ).0,
            writes(
                old(out)@,
                final(out)@,
                self.riser_step(current_line, *old(riser_state), is_active_riser).0,
            ),
    {
        let has_message = self.has_message_for_line(current_line);
        proof {
            reveal_strlit("/");
            reveal_strlit("\\");
            lemma_short_no_reset("/"@);
            lemma_short_no_reset("\\"@);
            assert("/"@ =~= seq!['/']);
            assert("\\"@ =~= seq!['\\']);
        }
        match *riser_state {
            RiserState::Unused => {
                proof {
                    lemma_writes_nothing(out@);
                }
                assert(out@ =~= old(out)@ + Seq::<char>::empty());
            },
            RiserState::Ended => {
                put_char(out, ' ');
            },
            RiserState::Waiting => {
                if !is_active_riser && self.span.page.start.column == 0 && !has_message {
                    *riser_state = RiserState::Started;
                    if color_enabled {
                        put_painted(out, "/", self.message_type.color(), 0);
                    } else {
                        put_char(out, '/');
                    }
                } else if has_message {
                    *riser_state = RiserState::Started;
                    put_char(out, ' ');
                } else {
                    put_char(out, ' ');
                }
            },
            RiserState::Started => {
                if !is_active_riser && self.span.page.end.column == 0 && !has_message {
                    *riser_state = RiserState::Ended;
                    if color_enabled {
                        put_painted(out, "\\", self.message_type.color(), 0);
                    } else {
                        put_char(out, '\\');
                    }
                } else if is_active_riser && has_message {
                    *riser_state = RiserState::Ended;
                    put_char(out, '|');
                } else {
                    put_char(out, '|');
                }
            },
        }
    }

    /// The underscores leading to the corner of a multi-line highlight at
    /// the given column, and the corner.
    pub open spec fn corner_text(extra: bool, column: usize) -> Seq<char> {
        (if extra {
            seq!['_']
        } else {
            Seq::empty()
        }) + repeat_char('_', if column > 0 {
            (column - 1) as nat
        } else {
            0
        }) + seq!['^']
    }

    /// The underline of a highlight on a single line, or a mark for an
    /// empty span.
    pub open spec fn marks_text(self) -> Seq<char> {
        let start = self.span.page.start;
        let end = self.span.page.end;
        if self.span.byte.start == self.span.byte.end {
            seq!['\\']
        } else {
            let n = if end.column > start.column {
                end.column - start.column
            } else {
                0
            };
            repeat_char(underline_char(self.message_type), if n > 1 {
                n as nat
            } else {
                1
            })
        }
    }

    /// The underline of a highlight with a nonempty span covers every column
    /// of the span: it is the highlight's underline character repeated once
    /// for each column from the span's start column to its end column, and
    /// at least once.
    pub proof fn lemma_underline_covers_columns(self)
        requires
            self.span.byte.start != self.span.byte.end,
        ensures
            self.marks_text().len() == if self.span.page.end.column - self.span.page.start.column
                > 1 {
                self.span.page.end.column - self.span.page.start.column
            } else {
                1int
            },
            forall|i: int|
                0 <= i < self.marks_text().len() ==> #[trigger] self.marks_text()[i]
                    == underline_char(self.message_type),
    {
        let start = self.span.page.start;
        let end = self.span.page.end;
        let n: nat = if end.column - start.column > 1 {
            (end.column - start.column) as nat
        } else {
            1
        };
        lemma_repeat_char_shape(underline_char(self.message_type), n);
    }

    /// The message after the underline of a highlight on a single line.
    pub open spec fn single_message_text(self) -> Seq<char> {
        match (self.start_message, self.end_message) {
            (Some(m), None) => seq![' '] + m@ + seq!['\n'],
            (None, Some(m)) => seq![' '] + m@ + seq!['\n'],
            _ => seq!['\n'],
        }
    }

    /// The text written for a highlight on a single line: the underline, or
    /// a mark for an empty span, then its message.
    pub open spec fn single_line_text(self, extra: bool) -> Seq<char> {
        (if extra {
            seq![' ']
        } else {
            Seq::empty()
        }) + repeat_char(' ', self.span.page.start.column as nat) + self.marks_text()
            + self.single_message_text()
    }

    /// The text after the corner of a multi-line highlight: on its first
    /// line the start message (without a line break), on its last line the
    /// end message.
    pub open spec fn corner_tail(self, on_start: bool) -> Seq<char> {
        if on_start {
            match self.start_message {
                Some(m) => seq![' '] + m@,
                None => seq!['\n'],
            }
        } else {
            match self.end_message {
                Some(m) => seq![' '] + m@ + seq!['\n'],
                None => seq!['\n'],
            }
        }
    }

    /// The message text written for a line, without color: the underline
    /// or the corner of the highlight, then its message.
    pub open spec fn message_text(self, line: usize, extra_spacer: bool) -> Seq<char> {
        let start = self.span.page.start;
        let end = self.span.page.end;
        if start.line == line && end.line == line {
            self.single_line_text(extra_spacer)
        } else if start.line == line {
            Self::corner_text(extra_spacer, start.column) + match self.start_message {
                Some(m) => seq![' '] + m@,
                None => seq!['\n'],
            }
        } else if end.line == line {
            Self::corner_text(extra_spacer, end.column) + match self.end_message {
                Some(m) => seq![' '] + m@ + seq!['\n'],
                None => seq!['\n'],
            }
        } else {
            Seq::empty()
        }
    }

    /// Writes the message text for the given line. Without color, the text
    /// written is that of `message_text`; with color, the characters of
    /// that text occur in order in what is written, as long as no message
    /// holds a terminal reset sequence.
    pub fn write_message_for_line(
        &self,
        out: &mut String,
        line: usize,
        write_extra_riser_spacer: bool,
        color_enabled: bool,
    )
        requires
            !(self.span.page.start.line == line && self.span.page.end.line == line
                && self.start_message is Some && self.end_message is Some),
        ensures
            !color_enabled ==> final(out)@ == old(out)@ + self.message_text(
                line,
                write_extra_riser_spacer,
            ),
            !color_enabled || self.messages_plain() ==> writes(
                old(out)@,
                final(out)@,
                self.message_text(line, write_extra_riser_spacer),
            ),
    {
        let start = self.span.page.start;
        let end = self.span.page.end;
        let color = self.message_type.color();
        let ghost o0 = out@;
        if start.line == line && end.line == line {
            self.write_single_line(out, write_extra_riser_spacer, color_enabled);
        } else if start.line == line || end.line == line {
            let on_start = start.line == line;
            let column = if on_start {
                start.column
            } else {
                end.column
            };
            let msg = if on_start {
                &self.start_message
            } else {
                &self.end_message
            };
            self.write_corner(out, write_extra_riser_spacer, column, color_enabled);
            let ghost o1 = out@;
            match msg {
                Some(m) => {
                    put_char(out, ' ');
                    let ghost o2 = out@;
                    if color_enabled {
                        put_painted(out, m.as_str(), color, 0);
                        let ghost o3 = out@;
                        put_char(out, '\n');
                        proof {
                            if self.messages_plain() {
                                lemma_writes_chain(o1, o2, o3, seq![' '], m@);
                                lemma_writes_extra(o3, seq!['\n']);
                                assert(out@ =~= o3 + seq!['\n']);
                                if on_start {
                                    lemma_writes_chain(o1, o3, out@, seq![' '] + m@, Seq::empty());
                                    assert(seq![' '] + m@ + Seq::<char>::empty() =~= seq![' '] + m@);
                                } else {
                                    lemma_writes_chain(o1, o3, out@, seq![' '] + m@, seq!['\n']);
                                }
                            }
                        }
                    } else {
                        put_str(out, m.as_str());
                        let ghost o3 = out@;
                        if !on_start {
                            put_char(out, '\n');
                        }
                        proof {
                            lemma_writes_chain(o1, o2, o3, seq![' '], m@);
                            if !on_start {
                                lemma_writes_chain(o1, o3, out@, seq![' '] + m@, seq!['\n']);
                            }
                        }
                    }
                },
                None => {
                    put_char(out, '\n');
                },
            }
            proof {
                if !color_enabled || self.messages_plain() {
                    let tail = self.corner_tail(on_start);
                    assert(writes(o1, out@, tail));
                    lemma_writes_chain(o0, o1, out@, Self::corner_text(write_extra_riser_spacer, column), tail);
                }
                if !color_enabled {
                    assert(final(out)@ =~= old(out)@ + self.message_text(
                        line,
                        write_extra_riser_spacer,
                    ));
                }
            }
        } else {
            proof {
                lemma_writes_nothing(out@);
            }
            assert(out@ =~= old(out)@ + self.message_text(line, write_extra_riser_spacer));
        }
    }

    /// Writes the text for a highlight on a single line.
    fn write_single_line(&self, out: &mut String, extra: bool, color_enabled: bool)
        requires
            !(self.start_message is Some && self.end_message is Some),
        ensures
            !color_enabled ==> final(out)@ == old(out)@ + self.single_line_text(extra),
            !color_enabled || self.messages_plain() ==> writes(
                old(out)@,
                final(out)@,
                self.single_line_text(extra),
            ),
    {
        let ghost o0 = out@;
        if extra {
            put_char(out, ' ');
        } else {
            proof {
                lemma_writes_nothing(out@);
            }
        }
        let ghost o1 = out@;
        put_repeat(out, ' ', self.span.page.start.column);
        let ghost a = out@;
        self.write_marks(out, color_enabled);
        let ghost b = out@;
        self.write_single_message(out, color_enabled);
        proof {
            let sp: Seq<char> = if extra {
                seq![' ']
            } else {
                Seq::empty()
            };
            let ind = repeat_char(' ', self.span.page.start.column as nat);
            lemma_writes_chain(o0, o1, a, sp, ind);
            lemma_writes_chain(o0, a, b, sp + ind, self.marks_text());
            if !color_enabled || self.messages_plain() {
                lemma_writes_chain(o0, b, out@, sp + ind + self.marks_text(), self.single_message_text());
            }
            if !color_enabled {
                assert(final(out)@ =~= old(out)@ + self.single_line_text(extra));
            }
        }
    }

    /// Writes the underline of a highlight on a single line.
    fn write_marks(&self, out: &mut String, color_enabled: bool)
        ensures
            !color_enabled ==> final(out)@ == old(out)@ + self.marks_text(),
            writes(old(out)@, final(out)@, self.marks_text()),
    {
        let start = self.span.page.start;
        let end = self.span.page.end;
        let color = self.message_type.color();
        proof {
            reveal_strlit("\\");
            lemma_short_no_reset("\\"@);
            assert("\\"@ =~= seq!['\\']);
        }
        if self.span.is_empty() {
            if color_enabled {
                put_painted(out, "\\", color, 0);
            } else {
                put_char(out, '\\');
                assert(out@ =~= old(out)@ + self.marks_text());
            }
        } else {
            let diff = if end.column > start.column {
                end.column - start.column
            } else {
                0
            };
            let count = if diff > 1 {
                diff
            } else {
                1
            };
            if color_enabled {
                let u = self.message_type.underline();
                let ghost c = underline_char(self.message_type);
                let ghost o0 = out@;
                proof {
                    lemma_short_no_reset(u@);
                    lemma_writes_nothing(o0);
                }
                let mut i: usize = 0;
                while i < count
                    invariant
                        i <= count,
                        u@ == seq![c],
                        !holds_reset(u@),
                        writes(o0, out@, repeat_char(c, i as nat)),
                    decreases count - i,
                {
                    let ghost ob = out@;
                    put_painted(out, u, color, 0);
                    proof {
                        lemma_writes_chain(o0, ob, out@, repeat_char(c, i as nat), seq![c]);
                        assert(repeat_char(c, (i + 1) as nat) =~= repeat_char(c, i as nat) + seq![c]);
                    }
                    i = i + 1;
                }
            } else {
                put_repeat(out, self.message_type.underline_mark(), count);
            }
        }
    }

    /// Writes the message after the underline of a highlight on a single
    /// line.
    fn write_single_message(&self, out: &mut String, color_enabled: bool)
        requires
            !(self.start_message is Some && self.end_message is Some),
        ensures
            !color_enabled ==> final(out)@ == old(out)@ + self.single_message_text(),
            !color_enabled || self.messages_plain() ==> writes(
                old(out)@,
                final(out)@,
                self.single_message_text(),
            ),
    {
        let color = self.message_type.color();
        let msg = match (&self.start_message, &self.end_message) {
            (Some(m), None) => Some(m),
            (None, Some(m)) => Some(m),
            _ => None,
        };
        let ghost o0 = out@;
        match msg {
            Some(m) => {
                put_char(out, ' ');
                let ghost o1 = out@;
                if color_enabled {
                    put_painted(out, m.as_str(), color, 0);
                } else {
                    put_str(out, m.as_str());
                }
                let ghost o2 = out@;
                put_char(out, '\n');
                proof {
                    if !color_enabled || self.messages_plain() {
                        lemma_writes_chain(o0, o1, o2, seq![' '], m@);
                        lemma_writes_chain(o0, o2, out@, seq![' '] + m@, seq!['\n']);
                    }
                }
            },
            None => {
                put_char(out, '\n');
            },
        }
        proof {
            if !color_enabled {
                assert(final(out)@ =~= old(out)@ + self.single_message_text());
            }
        }
    }

    /// Writes the underscores leading to the corner of a multi-line
    /// highlight at the given column, and the corner.
    fn write_corner(&self, out: &mut String, extra: bool, column: usize, color_enabled: bool)
        ensures
            !color_enabled ==> final(out)@ == old(out)@ + Self::corner_text(extra, column),
            writes(old(out)@, final(out)@, Self::corner_text(extra, column)),
    {
        let color = self.message_type.color();
        let n = if column > 0 {
            column - 1
        } else {
            0
        };
        let ghost o0 = out@;
        let ghost ex: Seq<char> = if extra {
            seq!['_']
        } else {
            Seq::empty()
        };
        proof {
            reveal_strlit("_");
            reveal_strlit("^");
            lemma_short_no_reset("_"@);
            lemma_short_no_reset("^"@);
            assert("_"@ =~= seq!['_']);
            assert("^"@ =~= seq!['^']);
        }
        if color_enabled {
            if extra {
                put_painted(out, "_", color, 0);
            } else {
                proof {
                    lemma_writes_nothing(out@);
                }
            }
            let ghost o1 = out@;
            let mut i: usize = 0;
            proof {
                lemma_writes_nothing(o1);
            }
            while i < n
                invariant
                    i <= n,
                    !holds_reset("_"@),
                    "_"@ == seq!['_'],
                    writes(o1, out@, repeat_char('_', i as nat)),
                decreases n - i,
            {
                let ghost ob = out@;
                put_painted(out, "_", color, 0);
                proof {
                    lemma_writes_chain(o1, ob, out@, repeat_char('_', i as nat), seq!['_']);
                    assert(repeat_char('_', (i + 1) as nat) =~= repeat_char('_', i as nat) + seq!['_']);
                }
                i = i + 1;
            }
            let ghost o2 = out@;
            put_painted(out, "^", color, 0);
            proof {
                lemma_writes_chain(o0, o1, o2, ex, repeat_char('_', n as nat));
                lemma_writes_chain(o0, o2, out@, ex + repeat_char('_', n as nat), seq!['^']);
            }
        } else {
            if extra {
                put_char(out, '_');
            } else {
                proof {
                    lemma_writes_nothing(out@);
                }
            }
            let ghost o1 = out@;
            put_repeat(out, '_', n);
            let ghost o2 = out@;
            put_char(out, '^');
            proof {
                lemma_writes_chain(o0, o1, o2, ex, repeat_char('_', n as nat));
                lemma_writes_chain(o0, o2, out@, ex + repeat_char('_', n as nat), seq!['^']);
            }
        }
        proof {
            if !color_enabled {
                assert(final(out)@ =~= old(out)@ + Self::corner_text(extra, column));
            }
        }
    }
}

/// A character repeated `n` times is `n` characters long, each of them
/// that character.
pub proof fn lemma_repeat_char_shape(c: char, n: nat)
    ensures
        repeat_char(c, n).len() == n,
        forall|i: int| 0 <= i < n ==> #[trigger] repeat_char(c, n)[i] == c,
    decreases n,
{
    if n > 0 {
        lemma_repeat_char_shape(c, (n - 1) as nat);
    }
}

} // verus!
