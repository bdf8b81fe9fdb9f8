//! Source texts: a text placed at a start position, with its column metrics.
use vstd::prelude::*;
use vstd::string::*;
use vstd::utf8::*;
use crate::metrics::ColumnMetrics;
use crate::metrics::all_accepted;
use crate::metrics::match_stops_at;
use crate::metrics::after_str_ok;
use crate::metrics::end_position_spec;
use crate::metrics::lemma_line_start_byte_bounds;
use crate::metrics::lemma_step;
use crate::metrics::lemma_text_bounds;
use crate::metrics::line_break_at;
use crate::metrics::line_end_spec;
use crate::metrics::line_start_byte;
use crate::metrics::next_position_ok;
use crate::metrics::next_position_spec;
use crate::metrics::previous_position_ok;
use crate::metrics::previous_position_spec;
use crate::metrics::room;
use crate::metrics::starts_with_at;
use crate::metrics::tabs_ok;
use crate::metrics::walk_to;
use crate::position::Pos;
use crate::position::page_le;
use crate::position::pos_shift_fits;
use crate::position::pos_shifted_spec;
use crate::span::Span;
use crate::span::enclosing;

verus! {

/// A positioned section of source text.
///
/// Positions within the text are absolute: the text's first byte lies at
/// the byte of `offset`.
#[derive(Debug, Clone, Copy)]
pub struct SourceText<'text> {
    /// The source text.
    pub text: &'text str,
    /// The source text name.
    pub name: Option<&'text str>,
    /// The column metrics of the source text.
    pub metrics: ColumnMetrics,
    /// The position of the start of the source text.
    pub offset: Pos,
}

/// A source text that borrows its text.
pub type SourceTextRef<'text> = SourceText<'text>;

impl<'text> SourceText<'text> {
    /// The UTF-8 bytes of the text.
    pub open spec fn bytes(self) -> Seq<u8> {
        self.text.spec_bytes()
    }

    /// The position `p` relative to the start of the text.
    pub open spec fn rel(self, p: Pos) -> Pos {
        Pos { byte: (p.byte - self.offset.byte) as usize, page: p.page }
    }

    /// The relative position `p` placed after the start of the text.
    pub open spec fn abs(self, p: Pos) -> Pos {
        Pos { byte: (p.byte + self.offset.byte) as usize, page: p.page }
    }

    /// `abs` applied to a present position.
    pub open spec fn abs_opt(self, o: Option<Pos>) -> Option<Pos> {
        match o {
            Some(p) => Some(self.abs(p)),
            None => None,
        }
    }

    /// Whether `p` is a character boundary of the text, and every position
    /// of the text has an absolute byte that fits in `usize`.
    pub open spec fn in_text(self, p: Pos) -> bool {
        &&& self.offset.byte <= p.byte
        &&& is_char_boundary(self.bytes(), p.byte - self.offset.byte)
        &&& self.offset.byte + self.bytes().len() <= usize::MAX
    }

    /// Constructs a new `SourceText` at the zero position with the default
    /// column metrics.
    pub fn new(text: &'text str) -> (r: SourceText<'text>)
        ensures
            r.text == text,
            r.name is None,
            r.metrics == ColumnMetrics::new_spec(),
            r.offset == Pos::new_spec(0, 0, 0),
    {
        SourceText { text, name: None, metrics: ColumnMetrics::new(), offset: Pos::zero() }
    }

    /// Constructs a new empty `SourceText`.
    pub fn empty() -> (r: SourceText<'text>)
        ensures
            r.text@ == Seq::<char>::empty(),
            r.name is None,
            r.metrics == ColumnMetrics::new_spec(),
            r.offset == Pos::new_spec(0, 0, 0),
    {
        proof {
            reveal_strlit("");
        }
        assert(""@ =~= Seq::<char>::empty());
        SourceText::new("")
    }

    /// Returns the text.
    pub fn text(&self) -> (r: &'text str)
        ensures
            r == self.text,
    {
        self.text
    }

    /// Returns the given source text with the given name.
    pub fn with_name(self, name: &'text str) -> (r: SourceText<'text>)
        ensures
            r == (SourceText { name: Some(name), ..self }),
    {
        SourceText { name: Some(name), ..self }
    }

    /// Returns the given source text with the given column metrics.
    pub fn with_column_metrics(self, metrics: ColumnMetrics) -> (r: SourceText<'text>)
        ensures
            r == (SourceText { metrics, ..self }),
    {
        SourceText { metrics, ..self }
    }

    /// Returns the given source text starting at the given position.
    pub fn with_start_position(self, offset: Pos) -> (r: SourceText<'text>)
        ensures
            r == (SourceText { offset, ..self }),
    {
        SourceText { offset, ..self }
    }

    /// Returns the column metrics of the text.
    pub fn column_metrics(&self) -> (r: ColumnMetrics)
        ensures
            r == self.metrics,
    {
        self.metrics
    }

    /// Returns the column metrics of the text for modification.
    pub fn column_metrics_mut(&mut self) -> (r: &mut ColumnMetrics)
        ensures
            *r == old(self).metrics,
            *final(self) == (SourceText { metrics: *final(r), ..*old(self) }),
    {
        &mut self.metrics
    }

    /// Returns the text as a string slice.
    pub fn as_str(&self) -> (r: &'text str)
        ensures
            r == self.text,
    {
        self.text
    }

    /// Returns the length of the text in bytes.
    pub fn len(&self) -> (r: usize)
        ensures
            r == self.bytes().len(),
    {
        self.text.as_bytes().len()
    }

    /// Returns true if the text is empty.
    pub fn is_empty(&self) -> (r: bool)
        ensures
            r == (self.text@.len() == 0),
    {
        self.text.is_empty()
    }

    /// Returns the name of the text, if any.
    pub fn name(&self) -> (r: Option<&'text str>)
        ensures
            r == self.name,
    {
        self.name
    }

    /// Returns the start position of the text.
    pub fn start_position(&self) -> (r: Pos)
        ensures
            r == self.offset,
    {
        self.offset
    }

    /// The end position of the text: an empty text ends where it starts,
    /// and another one at its start shifted by the position reached by
    /// stepping over it.
    pub open spec fn end_position_spec(self) -> Pos {
        if self.bytes().len() == 0 {
            self.offset
        } else {
            pos_shifted_spec(
                self.offset,
                end_position_spec(self.metrics, self.bytes(), Pos::new_spec(0, 0, 0)),
            )
        }
    }

    /// Whether the end of the text can be measured: the walk from its start
    /// has headroom, a tab width where there are tabs, and the shifted end
    /// fits.
    pub open spec fn end_position_ok(self) -> bool {
        &&& room(self.bytes(), Pos::new_spec(0, 0, 0))
        &&& tabs_ok(self.metrics, self.bytes(), 0)
        &&& pos_shift_fits(
            self.offset,
            end_position_spec(self.metrics, self.bytes(), Pos::new_spec(0, 0, 0)),
        )
    }

    /// Returns the end position of the text.
    pub fn end_position(&self) -> (r: Pos)
        requires
            self.end_position_ok(),
        ensures
            r == self.end_position_spec(),
            r.byte == self.offset.byte + self.bytes().len(),
    {
        proof {
            lemma_text_bounds(self.text);
        }
        if self.text.len() == 0 {
            return self.offset;
        }
        let end = self.metrics.end_position(self.text, Pos::zero());
        self.offset.shifted(end)
    }

    /// Returns the full span of the text.
    pub fn full_span(&self) -> (r: Span)
        requires
            self.end_position_ok(),
        ensures
            r == enclosing(self.offset, self.end_position_spec()),
    {
        let end = self.end_position();
        Span::new_enclosing(self.offset, end)
    }

    /// Returns the next column-aligned position after the given base
    /// position within the text. `None` is returned if the result position
    /// is not within the text.
    pub fn next_position(&self, base: Pos) -> (r: Option<Pos>)
        requires
            self.in_text(base),
            next_position_ok(self.metrics, self.bytes(), self.rel(base)),
        ensures
            r == self.abs_opt(next_position_spec(self.metrics, self.bytes(), self.rel(base))),
            r matches Some(q) ==> base.byte < q.byte && self.in_text(q),
    {
        let rel = Pos { byte: base.byte - self.offset.byte, page: base.page };
        match self.metrics.next_position(self.text, rel) {
            Some(q) => Some(Pos { byte: q.byte + self.offset.byte, page: q.page }),
            None => None,
        }
    }

    /// Returns the previous column-aligned position before the given base
    /// position within the text. `None` is returned if the result position
    /// is not within the text.
    pub fn previous_position(&self, base: Pos) -> (r: Option<Pos>)
        requires
            self.in_text(base),
            previous_position_ok(self.metrics, self.bytes(), self.rel(base)),
        ensures
            r == self.abs_opt(previous_position_spec(self.metrics, self.bytes(), self.rel(base))),
            r matches Some(q) ==> q.byte < base.byte && self.in_text(q),
    {
        let rel = Pos { byte: base.byte - self.offset.byte, page: base.page };
        match self.metrics.previous_position(self.text, rel) {
            Some(q) => Some(Pos { byte: q.byte + self.offset.byte, page: q.page }),
            None => None,
        }
    }

    /// Returns `previous_position(base)` where the metrics accept the step
    /// back, and `None` where they do not.
    pub fn checked_previous_position(&self, base: Pos) -> (r: Option<Option<Pos>>)
        requires
            self.in_text(base),
        ensures
            r is None <==> !previous_position_ok(self.metrics, self.bytes(), self.rel(base)),
            r matches Some(x) ==> x == self.abs_opt(
                previous_position_spec(self.metrics, self.bytes(), self.rel(base)),
            ),
    {
        let rel = Pos { byte: base.byte - self.offset.byte, page: base.page };
        if self.metrics.previous_position_accepts(self.text, rel) {
            Some(self.previous_position(base))
        } else {
            None
        }
    }

    /// Returns true if a line break is positioned at the given byte position
    /// in the text.
    pub fn is_line_break(&self, byte: usize) -> (r: bool)
        requires
            byte > self.offset.byte,
            is_char_boundary(self.bytes(), byte - self.offset.byte),
        ensures
            r == line_break_at(self.metrics.line_ending, self.bytes(), byte - self.offset.byte),
    {
        self.metrics.is_line_break(self.text, byte - self.offset.byte)
    }

    /// Whether the end of the line containing `base` can be measured.
    pub open spec fn line_end_ok(self, base: Pos) -> bool {
        &&& self.in_text(base)
        &&& room(self.bytes(), self.rel(base))
        &&& tabs_ok(self.metrics, self.bytes(), self.rel(base).byte as int)
    }

    /// The end of the line containing `base`.
    pub open spec fn line_end_spec(self, base: Pos) -> Pos {
        self.abs(line_end_spec(self.metrics, self.bytes(), self.rel(base)))
    }

    /// Returns the position of the end of the line containing the given
    /// base position.
    pub fn line_end_position(&self, base: Pos) -> (r: Pos)
        requires
            self.line_end_ok(base),
        ensures
            r == self.line_end_spec(base),
            base.byte <= r.byte,
            self.in_text(r),
            room(self.bytes(), self.rel(r)),
            r.byte - self.offset.byte == self.bytes().len() || line_break_at(
                self.metrics.line_ending,
                self.bytes(),
                r.byte - self.offset.byte,
            ),
    {
        let rel = Pos { byte: base.byte - self.offset.byte, page: base.page };
        let q = self.metrics.line_end_position(self.text, rel);
        Pos { byte: q.byte + self.offset.byte, page: q.page }
    }

    /// The start of the line containing `base`.
    pub open spec fn line_start_spec(self, base: Pos) -> Pos {
        self.abs(
            Pos::new_spec(
                line_start_byte(
                    self.metrics.line_ending,
                    self.bytes(),
                    self.rel(base).byte as int,
                ) as usize,
                base.page.line,
                0,
            ),
        )
    }

    /// Returns the position of the start of the line containing the given
    /// base position.
    pub fn line_start_position(&self, base: Pos) -> (r: Pos)
        requires
            self.offset.byte <= base.byte,
        ensures
            r == self.line_start_spec(base),
            self.offset.byte <= r.byte <= base.byte,
    {
        let rel = Pos { byte: base.byte - self.offset.byte, page: base.page };
        let q = self.metrics.line_start_position(self.text, rel);
        Pos { byte: q.byte + self.offset.byte, page: q.page }
    }

    /// Returns the position at the end of the line before the line
    /// containing the given base position.
    pub fn previous_line_end_position(&self, base: Pos) -> (r: Option<Pos>)
        requires
            self.offset.byte <= base.byte,
            self.offset.byte + self.bytes().len() <= usize::MAX,
            previous_position_ok(self.metrics, self.bytes(), self.rel(self.line_start_spec(base))),
        ensures
            r == self.abs_opt(
                previous_position_spec(self.metrics, self.bytes(), self.rel(self.line_start_spec(base))),
            ),
    {
        let rel = Pos { byte: base.byte - self.offset.byte, page: base.page };
        proof {
            lemma_line_start_byte_bounds(self.metrics.line_ending, self.bytes(), rel.byte as int);
        }
        match self.metrics.previous_line_end_position(self.text, rel) {
            Some(q) => Some(Pos { byte: q.byte + self.offset.byte, page: q.page }),
            None => None,
        }
    }

    /// Returns `previous_line_end_position(base)` where the metrics accept
    /// the step back from the start of the line, and `None` otherwise.
    pub fn checked_previous_line_end_position(&self, base: Pos) -> (r: Option<Option<Pos>>)
        requires
            self.offset.byte <= base.byte,
            self.offset.byte + self.bytes().len() <= usize::MAX,
        ensures
            r is None <==> !previous_position_ok(
                self.metrics,
                self.bytes(),
                self.rel(self.line_start_spec(base)),
            ),
            r matches Some(x) ==> x == self.abs_opt(
                previous_position_spec(self.metrics, self.bytes(), self.rel(self.line_start_spec(base))),
            ),
    {
        let rel = Pos { byte: base.byte - self.offset.byte, page: base.page };
        proof {
            lemma_line_start_byte_bounds(self.metrics.line_ending, self.bytes(), rel.byte as int);
        }
        match self.metrics.checked_previous_line_end_position(self.text, rel) {
            Some(Some(q)) => Some(Some(Pos { byte: q.byte + self.offset.byte, page: q.page })),
            Some(None) => Some(None),
            None => None,
        }
    }

    /// Returns the position at the start of the line after the line
    /// containing the given base position.
    pub fn next_line_start_position(&self, base: Pos) -> (r: Option<Pos>)
        requires
            self.line_end_ok(base),
        ensures
            r == self.abs_opt(
                next_position_spec(
                    self.metrics,
                    self.bytes(),
                    line_end_spec(self.metrics, self.bytes(), self.rel(base)),
                ),
            ),
    {
        let rel = Pos { byte: base.byte - self.offset.byte, page: base.page };
        proof {
            lemma_text_bounds(self.text);
        }
        match self.metrics.next_line_start_position(self.text, rel) {
            Some(q) => Some(Pos { byte: q.byte + self.offset.byte, page: q.page }),
            None => None,
        }
    }

    /// Returns the position after the given pattern, given its start
    /// position.
    pub fn position_after_str(&self, start: Pos, pattern: &str) -> (r: Option<Pos>)
        requires
            self.in_text(start),
            after_str_ok(
                self.metrics,
                self.bytes(),
                pattern.spec_bytes(),
                self.rel(start),
                self.rel(start),
            ),
        ensures
            r matches Some(e) ==> {
                &&& starts_with_at(self.bytes(), self.rel(start).byte as int, pattern.spec_bytes())
                &&& e == self.abs(
                    walk_to(
                        self.metrics,
                        self.bytes(),
                        self.rel(start),
                        self.rel(start).byte + pattern.spec_bytes().len(),
                    ),
                )
            },
            r is None ==> !starts_with_at(
                self.bytes(),
                self.rel(start).byte as int,
                pattern.spec_bytes(),
            ) || pattern.spec_bytes().len() == 0,
    {
        let rel = Pos { byte: start.byte - self.offset.byte, page: start.page };
        proof {
            lemma_text_bounds(self.text);
        }
        match self.metrics.position_after_str(self.text, rel, pattern) {
            Some(q) => {
                proof {
                    assert(q.byte <= self.bytes().len()) by {
                        reveal_with_fuel(is_char_boundary, 1);
                    }
                }
                Some(Pos { byte: q.byte + self.offset.byte, page: q.page })
            },
            None => None,
        }
    }
}

impl<'text> SourceText<'text> {
    /// Returns the position after the characters from `start` that `f`
    /// accepts; `None` if `f` accepts none.
    pub fn position_after_chars_matching<F: Fn(char) -> bool>(&self, start: Pos, f: F) -> (r:
        Option<Pos>)
        requires
            self.line_end_ok(start),
            forall|c: char| f.requires((c,)),
        ensures
            r matches Some(e) ==> {
                let re = self.rel(e);
                &&& start.byte < e.byte
                &&& e == self.abs(re)
                &&& re == walk_to(self.metrics, self.bytes(), self.rel(start), re.byte as int)
                &&& all_accepted(f, self.bytes(), self.rel(start).byte as int, re.byte as int)
                &&& match_stops_at(self.metrics, self.bytes(), f, re)
            },
            r is None ==> match_stops_at(self.metrics, self.bytes(), f, self.rel(start)),
    {
        let rel = Pos { byte: start.byte - self.offset.byte, page: start.page };
        proof {
            lemma_text_bounds(self.text);
        }
        match self.metrics.position_after_chars_matching(self.text, rel, f) {
            Some(q) => {
                proof {
                    assert(q.byte <= self.bytes().len()) by {
                        reveal_with_fuel(is_char_boundary, 1);
                    }
                }
                Some(Pos { byte: q.byte + self.offset.byte, page: q.page })
            },
            None => None,
        }
    }

    /// Returns the next position after `start` if `f` accepts the characters
    /// of that step.
    pub fn next_position_after_chars_matching<F: Fn(char) -> bool>(&self, start: Pos, f: F) -> (r:
        Option<Pos>)
        requires
            self.in_text(start),
            next_position_ok(self.metrics, self.bytes(), self.rel(start)),
            forall|c: char| f.requires((c,)),
        ensures
            r matches Some(e) ==> {
                &&& self.abs_opt(next_position_spec(self.metrics, self.bytes(), self.rel(start)))
                    == Some(e)
                &&& all_accepted(
                    f,
                    self.bytes(),
                    self.rel(start).byte as int,
                    self.rel(e).byte as int,
                )
            },
            r is None ==> match_stops_at(self.metrics, self.bytes(), f, self.rel(start)),
    {
        let rel = Pos { byte: start.byte - self.offset.byte, page: start.page };
        match self.metrics.next_position_after_chars_matching(self.text, rel, f) {
            Some(q) => {
                proof {
                    lemma_text_bounds(self.text);
                    assert(q.byte <= self.bytes().len()) by {
                        reveal_with_fuel(is_char_boundary, 1);
                    }
                }
                Some(Pos { byte: q.byte + self.offset.byte, page: q.page })
            },
            None => None,
        }
    }

    /// Returns an iterator over the display columns of the text, starting
    /// from the given position relative to the start of the text.
    pub fn iter_columns(&self, base: Pos) -> (r: IterColumns<'text>)
        ensures
            r == (IterColumns { text: self.text, metrics: self.metrics, base: Some(base) }),
    {
        IterColumns { text: self.text, metrics: self.metrics, base: Some(base) }
    }

    /// Returns a copy of the source text that borrows the same text.
    pub fn borrow(&self) -> (r: SourceText<'text>)
        ensures
            r == *self,
    {
        *self
    }

    /// Whether `p` lies within the text, by byte and by page, as far as the
    /// end of the text.
    pub open spec fn pos_in_bounds(self, p: Pos) -> bool {
        let end = self.end_position_spec();
        &&& self.offset.byte <= p.byte <= end.byte
        &&& page_le(self.offset.page, p.page)
        &&& page_le(p.page, end.page)
    }

    /// Returns the part of the text covered by the span, placed at the
    /// span's start.
    pub fn clipped(&self, span: Span) -> (r: SourceText<'text>)
        requires
            self.end_position_ok(),
            self.pos_in_bounds(span.start_pos()),
            self.pos_in_bounds(span.end_pos()),
            span.byte.start <= span.byte.end,
            self.in_text(span.start_pos()),
            self.in_text(span.end_pos()),
        ensures
            r.text.spec_bytes() =~= self.bytes().subrange(
                self.rel(span.start_pos()).byte as int,
                self.rel(span.end_pos()).byte as int,
            ),
            r.name == self.name,
            r.metrics == self.metrics,
            r.offset == span.start_pos(),
    {
        let s = span.byte.start - self.offset.byte;
        let e = span.byte.end - self.offset.byte;
        let clip = substring(self.text, s, e);
        SourceText { text: clip, name: self.name, metrics: self.metrics, offset: span.start() }
    }
}

/// A positioned section of source text that owns its text.
#[derive(Debug)]
pub struct SourceTextOwned {
    /// The source text.
    pub text: Box<str>,
    /// The source text name.
    pub name: Option<Box<str>>,
    /// The column metrics of the source text.
    pub metrics: ColumnMetrics,
    /// The position of the start of the source text.
    pub offset: Pos,
}

/// Copies a string slice into a new box (`<Box<str> as From<&str>>::from`);
/// the box holds the same characters.
#[verifier::external_body]
fn box_str(s: &str) -> (r: Box<str>)
    ensures
        r@ == s@,
{
    Box::from(s)
}

impl<'text> SourceText<'text> {
    /// Converts the source text into one that owns a copy of its text.
    pub fn to_owned(&self) -> (r: SourceTextOwned)
        ensures
            r.text@ == self.text@,
            match self.name {
                Some(n) => r.name matches Some(m) && m@ == n@,
                None => r.name is None,
            },
            r.metrics == self.metrics,
            r.offset == self.offset,
    {
        let name = match self.name {
            Some(n) => Some(box_str(n)),
            None => None,
        };
        SourceTextOwned { text: box_str(self.text), name, metrics: self.metrics, offset: self.offset }
    }
}

impl SourceTextOwned {
    /// Constructs a new owned source text at the zero position with the
    /// default column metrics.
    pub fn new(text: Box<str>) -> (r: SourceTextOwned)
        ensures
            r.text == text,
            r.name is None,
            r.metrics == ColumnMetrics::new_spec(),
            r.offset == Pos::new_spec(0, 0, 0),
    {
        SourceTextOwned { text, name: None, metrics: ColumnMetrics::new(), offset: Pos::zero() }
    }

    /// The source text that borrows this one's text.
    pub open spec fn borrowed(&self) -> SourceText<'_> {
        SourceText {
            text: &*self.text,
            name: match &self.name {
                Some(n) => Some(&**n),
                None => None,
            },
            metrics: self.metrics,
            offset: self.offset,
        }
    }

    /// Returns a source text that borrows this one's text.
    pub fn borrow(&self) -> (r: SourceText<'_>)
        ensures
            r == self.borrowed(),
            r.text@ == self.text@,
            match self.name {
                Some(n) => r.name matches Some(m) && m@ == n@,
                None => r.name is None,
            },
            r.metrics == self.metrics,
            r.offset == self.offset,
    {
        let name: Option<&str> = match &self.name {
            Some(n) => Some(&**n),
            None => None,
        };
        SourceText { text: &*self.text, name, metrics: self.metrics, offset: self.offset }
    }

    /// Returns the text as a string slice.
    pub fn as_str(&self) -> (r: &str)
        ensures
            r@ == self.text@,
    {
        &*self.text
    }

    /// Returns the column metrics of the text.
    pub fn column_metrics(&self) -> (r: ColumnMetrics)
        ensures
            r == self.metrics,
    {
        self.metrics
    }

    /// Returns the start position of the text.
    pub fn start_position(&self) -> (r: Pos)
        ensures
            r == self.offset,
    {
        self.offset
    }
}

/// Returns the part of `text` from byte `s` to byte `e`.
pub fn substring<'a>(text: &'a str, s: usize, e: usize) -> (r: &'a str)
    requires
        s <= e,
        is_char_boundary(text.spec_bytes(), s as int),
        is_char_boundary(text.spec_bytes(), e as int),
    ensures
        r.spec_bytes() =~= text.spec_bytes().subrange(s as int, e as int),
{
    let ghost b = text.spec_bytes();
    proof {
        lemma_text_bounds(text);
        assert(e <= b.len()) by {
            reveal_with_fuel(is_char_boundary, 1);
        }
    }
    let (_, rest) = text.split_at(s);
    let ghost rb = rest.spec_bytes();
    proof {
        assert(rb =~= b.subrange(s as int, b.len() as int));
        valid_utf8_split(b, s as int);
        if e - s < rb.len() {
            is_char_boundary_iff_not_is_continuation_byte(b, e as int);
            assert(rb[e - s] == b[e as int]);
            is_char_boundary_iff_not_is_continuation_byte(rb, e - s);
        } else {
            is_char_boundary_start_end_of_seq(rb);
        }
    }
    let (mid, _) = rest.split_at(e - s);
    mid
}

/// An iterator over the display columns of a text: each step yields the
/// text of the next line break or character and the position after it.
#[derive(Debug, Clone, Copy)]
pub struct IterColumns<'text> {
    /// The text.
    pub text: &'text str,
    /// The column metrics of the text.
    pub metrics: ColumnMetrics,
    /// The current position, relative to the start of the text.
    pub base: Option<Pos>,
}

impl<'text> IterColumns<'text> {
    /// Whether the iterator can step on without failure: its position is a
    /// boundary with headroom and a tab width where there are tabs.
    pub open spec fn wf(self) -> bool {
        self.base matches Some(p) ==> {
            &&& is_char_boundary(self.text.spec_bytes(), p.byte as int)
            &&& room(self.text.spec_bytes(), p)
            &&& tabs_ok(self.metrics, self.text.spec_bytes(), p.byte as int)
        }
    }

    /// Returns the next column: the text stepped over and the position
    /// after it.
    pub fn next(&mut self) -> (r: Option<(&'text str, Pos)>)
        requires
            old(self).wf(),
        ensures
            final(self).wf(),
            final(self).text == old(self).text,
            final(self).metrics == old(self).metrics,
            ({
                let b = old(self).text.spec_bytes();
                let step = match old(self).base {
                    Some(p) => next_position_spec(old(self).metrics, b, p),
                    None => None,
                };
                &&& final(self).base == step
                &&& r is Some <==> step is Some
                &&& r matches Some(x) ==> {
                    &&& Some(x.1) == step
                    &&& x.0.spec_bytes() =~= b.subrange(
                        old(self).base->0.byte as int,
                        x.1.byte as int,
                    )
                }
            }),
    {
        let ghost b = self.text.spec_bytes();
        let n = self.text.as_bytes().len();
        proof {
            assert(n == b.len());
            lemma_text_bounds(self.text);
        }
        match self.base {
            Some(s) => {
                proof {
                    if s.byte < b.len() {
                        lemma_step(self.metrics, b, s);
                    }
                }
                let end = self.metrics.next_position(self.text, s);
                self.base = end;
                match end {
                    Some(e) => Some((substring(self.text, s.byte, e.byte), e)),
                    None => None,
                }
            },
            None => None,
        }
    }
}

} // verus!
