//! Text spans: intervals of positions within a source text.
use vstd::prelude::*;
use crate::position::Page;
use crate::position::Pos;
use crate::position::pos_le;
use crate::position::pos_lt;
use crate::source::SourceText;
use crate::metrics::line_end_spec;
use crate::metrics::next_position_spec;
use crate::metrics::room;
use few::Few;

verus! {

/// The interval of bytes which span the source text.
#[derive(Debug, Clone, Copy, PartialEq, Eq, Hash, PartialOrd, Ord, Structural)]
pub struct ByteSpan {
    /// The start of the span.
    pub start: usize,
    /// The end of the span.
    pub end: usize,
}

impl ByteSpan {
    /// Returns the length of the span in bytes.
    pub fn len(&self) -> (r: usize)
        requires
            self.start <= self.end,
        ensures
            r == self.end - self.start,
    {
        self.end - self.start
    }

    /// Returns true if the span is empty.
    pub fn is_empty(&self) -> (r: bool)
        ensures
            r == (self.start == self.end),
    {
        self.start == self.end
    }
}

impl Default for ByteSpan {
    fn default() -> (r: ByteSpan)
        ensures
            r == (ByteSpan { start: 0, end: 0 }),
    {
        ByteSpan { start: 0, end: 0 }
    }
}

/// The interval of lines and columns which span the source text.
#[derive(Debug, Clone, Copy, PartialEq, Eq, Hash, PartialOrd, Ord, Structural)]
pub struct PageSpan {
    /// The start of the span.
    pub start: Page,
    /// The end of the span.
    pub end: Page,
}

impl PageSpan {
    /// Returns true if the span is empty.
    pub fn is_empty(&self) -> (r: bool)
        ensures
            r == (self.start == self.end),
    {
        self.start.line == self.end.line && self.start.column == self.end.column
    }
}

impl Default for PageSpan {
    fn default() -> (r: PageSpan)
        ensures
            r == (PageSpan { start: Page { line: 0, column: 0 }, end: Page { line: 0, column: 0 } }),
    {
        PageSpan { start: Page { line: 0, column: 0 }, end: Page { line: 0, column: 0 } }
    }
}

/// A specific section of the source text, from a start to an end position.
#[derive(Debug, Clone, Copy, PartialEq, Eq, Hash, PartialOrd, Ord, Structural)]
pub struct Span {
    /// The byte range of the spanned section within the source.
    pub byte: ByteSpan,
    /// The page range of the spanned section within the source.
    pub page: PageSpan,
}

/// The `Few` type of the `few` crate: zero, one or two values.
#[verifier::external_type_specification]
#[verifier::external_body]
#[verifier::reject_recursive_types(T)]
pub struct ExFew<T>(Few<T>);

/// The spans that a `Few` holds, in order.
pub uninterp spec fn few_spans(f: Few<Span>) -> Seq<Span>;

/// The values present in a pair of options, in order.
pub open spec fn present(value: (Option<Span>, Option<Span>)) -> Seq<Span> {
    match value {
        (None, None) => Seq::empty(),
        (Some(a), None) => seq![a],
        (None, Some(b)) => seq![b],
        (Some(a), Some(b)) => seq![a, b],
    }
}

/// `Few::One` of the `few` crate: holds the one span.
#[verifier::external_body]
fn few_one(a: Span) -> (r: Few<Span>)
    ensures
        few_spans(r) == seq![a],
{
    Few::One(a)
}

/// `Few::Two` of the `few` crate: holds the two spans, in order.
#[verifier::external_body]
fn few_two(a: Span, b: Span) -> (r: Few<Span>)
    ensures
        few_spans(r) == seq![a, b],
{
    Few::Two(a, b)
}

/// `Few::from` of the `few` crate on a pair of options: holds the values
/// present, in order.
#[verifier::external_body]
fn few_from_options(value: (Option<Span>, Option<Span>)) -> (r: Few<Span>)
    ensures
        few_spans(r) == present(value),
{
    Few::from(value)
}

/// The span from `a` to `b`.
pub open spec fn enclosing(a: Pos, b: Pos) -> Span {
    Span {
        byte: ByteSpan { start: a.byte, end: b.byte },
        page: PageSpan { start: a.page, end: b.page },
    }
}

/// The earlier of two positions.
pub open spec fn pos_min(a: Pos, b: Pos) -> Pos {
    if pos_lt(a, b) {
        a
    } else {
        b
    }
}

/// The later of two positions.
pub open spec fn pos_max(a: Pos, b: Pos) -> Pos {
    if pos_lt(b, a) {
        a
    } else {
        b
    }
}

impl Span {
    /// The start position of the span.
    pub open spec fn start_pos(self) -> Pos {
        Pos { byte: self.byte.start, page: self.page.start }
    }

    /// The end position of the span.
    pub open spec fn end_pos(self) -> Pos {
        Pos { byte: self.byte.end, page: self.page.end }
    }

    /// Whether `p` lies within the span, its boundary points included.
    pub open spec fn contains_spec(self, p: Pos) -> bool {
        pos_le(self.start_pos(), p) && pos_le(p, self.end_pos())
    }

    /// Whether the span starts no later than it ends.
    pub open spec fn well_ordered(self) -> bool {
        pos_le(self.start_pos(), self.end_pos())
    }

    /// Constructs a new empty span at the zero position.
    pub fn new() -> (r: Span)
        ensures
            r == enclosing(Pos::new_spec(0, 0, 0), Pos::new_spec(0, 0, 0)),
    {
        Span { byte: ByteSpan::default(), page: PageSpan::default() }
    }

    /// Constructs a new empty span starting from the given position.
    pub fn new_at(pos: Pos) -> (r: Span)
        ensures
            r == enclosing(pos, pos),
    {
        Span {
            byte: ByteSpan { start: pos.byte, end: pos.byte },
            page: PageSpan { start: pos.page, end: pos.page },
        }
    }

    /// Constructs a new span covering the given start and end positions.
    pub fn new_enclosing(a: Pos, b: Pos) -> (r: Span)
        ensures
            r == enclosing(a, b),
    {
        Span {
            byte: ByteSpan { start: a.byte, end: b.byte },
            page: PageSpan { start: a.page, end: b.page },
        }
    }

    /// Returns true if the span is empty.
    pub fn is_empty(&self) -> (r: bool)
        ensures
            r == (self.byte.start == self.byte.end),
    {
        self.byte.start == self.byte.end
    }

    /// Returns the start position of the span.
    pub fn start(&self) -> (r: Pos)
        ensures
            r == self.start_pos(),
    {
        Pos { byte: self.byte.start, page: self.page.start }
    }

    /// Returns the end position of the span.
    pub fn end(&self) -> (r: Pos)
        ensures
            r == self.end_pos(),
    {
        Pos { byte: self.byte.end, page: self.page.end }
    }

    /// Returns the byte span of the span.
    pub fn byte_span(&self) -> (r: ByteSpan)
        ensures
            r == self.byte,
    {
        self.byte
    }

    /// Returns the page span of the span.
    pub fn page_span(&self) -> (r: PageSpan)
        ensures
            r == self.page,
    {
        self.page
    }

    /// Returns the length of the span in bytes.
    pub fn len(&self) -> (r: usize)
        requires
            self.byte.start <= self.byte.end,
        ensures
            r == self.byte.end - self.byte.start,
    {
        self.byte.len()
    }

    /// Returns true if the given position is contained within the span,
    /// boundary points included.
    pub fn contains(&self, pos: &Pos) -> (r: bool)
        ensures
            r == self.contains_spec(*pos),
    {
        self.start().is_at_or_before(*pos) && (*pos).is_at_or_before(self.end())
    }

    /// Returns true if the spans overlap, boundary points included.
    pub fn intersects(&self, other: Span) -> (r: bool)
        ensures
            r == (self.contains_spec(other.start_pos()) || self.contains_spec(other.end_pos())
                || other.contains_spec(self.start_pos()) || other.contains_spec(self.end_pos())),
    {
        self.contains(&other.start()) || self.contains(&other.end()) || other.contains(
            &self.start(),
        ) || other.contains(&self.end())
    }

    /// Returns true if the spans share a boundary point without containing
    /// each other.
    pub fn adjacent(&self, other: Span) -> (r: bool)
        ensures
            r == (self.start_pos() == other.end_pos() || self.end_pos() == other.start_pos()),
    {
        let a = self.start();
        let b = other.end();
        let c = self.end();
        let d = other.start();
        (a.byte == b.byte && a.page.line == b.page.line && a.page.column == b.page.column) || (
        c.byte == d.byte && c.page.line == d.page.line && c.page.column == d.page.column)
    }

    /// Returns the smallest span covering the given spans.
    pub fn enclose(&self, other: Span) -> (r: Span)
        ensures
            r == enclosing(
                pos_min(self.start_pos(), other.start_pos()),
                pos_max(self.end_pos(), other.end_pos()),
            ),
    {
        let a_start = self.start();
        let b_start = other.start();
        let a_end = self.end();
        let b_end = other.end();
        let start = if a_start.is_before(b_start) {
            a_start
        } else {
            b_start
        };
        let end = if b_end.is_before(a_end) {
            a_end
        } else {
            b_end
        };
        Span::new_enclosing(start, end)
    }

    /// Returns the smallest set of spans covering the given spans: one span
    /// where they overlap, both otherwise.
    pub fn union(&self, other: Span) -> (r: Few<Span>)
        ensures
            few_spans(r) == if self.contains_spec(other.start_pos()) || self.contains_spec(
                other.end_pos(),
            ) || other.contains_spec(self.start_pos()) || other.contains_spec(self.end_pos()) {
                seq![
                    enclosing(
                        pos_min(self.start_pos(), other.start_pos()),
                        pos_max(self.end_pos(), other.end_pos()),
                    ),
                ]
            } else {
                seq![*self, other]
            },
    {
        if self.intersects(other) {
            few_one(self.enclose(other))
        } else {
            few_two(*self, other)
        }
    }

    /// Returns the overlapping portion of the spans, if any.
    pub fn intersect(&self, other: Span) -> (r: Option<Span>)
        ensures
            r == Span::intersect_spec(*self, other),
    {
        let a_start = self.start();
        let b_start = other.start();
        let a_end = self.end();
        let b_end = other.end();
        let start = match (self.contains(&b_start), other.contains(&a_start)) {
            (true, true) => a_start,
            (true, false) => b_start,
            (false, true) => a_start,
            (false, false) => return None,
        };
        let end = match (self.contains(&b_end), other.contains(&a_end)) {
            (true, true) => a_end,
            (true, false) => b_end,
            (false, true) => a_end,
            (false, false) => return None,
        };
        Some(Span::new_enclosing(start, end))
    }

    /// The overlapping portion of two spans: it starts at whichever start
    /// lies within the other span and ends at whichever end does.
    pub open spec fn intersect_spec(a: Span, b: Span) -> Option<Span> {
        let start = if b.contains_spec(a.start_pos()) {
            Some(a.start_pos())
        } else if a.contains_spec(b.start_pos()) {
            Some(b.start_pos())
        } else {
            None
        };
        let end = if b.contains_spec(a.end_pos()) {
            Some(a.end_pos())
        } else if a.contains_spec(b.end_pos()) {
            Some(b.end_pos())
        } else {
            None
        };
        match (start, end) {
            (Some(s), Some(e)) => Some(enclosing(s, e)),
            _ => None,
        }
    }

    /// The part of `a` before `b`: from `a`'s start to whichever comes first
    /// of `b`'s start and `a`'s end, where that is nonempty.
    pub open spec fn minus_left_spec(a: Span, b: Span) -> Option<Span> {
        let end = if pos_lt(b.start_pos(), a.end_pos()) { b.start_pos() } else { a.end_pos() };
        if pos_lt(a.start_pos(), end) { Some(enclosing(a.start_pos(), end)) } else { None }
    }

    /// The part of `a` after `b`: from whichever comes last of `b`'s end and
    /// `a`'s start to `a`'s end, where that is nonempty.
    pub open spec fn minus_right_spec(a: Span, b: Span) -> Option<Span> {
        let start = if pos_lt(a.start_pos(), b.end_pos()) { b.end_pos() } else { a.start_pos() };
        if pos_lt(start, a.end_pos()) { Some(enclosing(start, a.end_pos())) } else { None }
    }

    /// Returns the result of removing a portion of the span: the part of it
    /// before the other span and the part after, each where nonempty. An
    /// empty other span inside this one splits it at that point.
    pub fn minus(&self, other: Span) -> (r: Few<Span>)
        ensures
            few_spans(r) == present(
                (Span::minus_left_spec(*self, other), Span::minus_right_spec(*self, other)),
            ),
    {
        let a_0 = self.start();
        let b_0 = other.start();
        let a_1 = self.end();
        let b_1 = other.end();
        let left_end = if b_0.is_before(a_1) {
            b_0
        } else {
            a_1
        };
        let right_start = if a_0.is_before(b_1) {
            b_1
        } else {
            a_0
        };
        let l = if a_0.is_before(left_end) {
            Some(Span::new_enclosing(a_0, left_end))
        } else {
            None
        };
        let r = if right_start.is_before(a_1) {
            Some(Span::new_enclosing(right_start, a_1))
        } else {
            None
        };
        few_from_options((l, r))
    }
}

impl Span {
    /// Constructs a new span covering the given source text.
    pub fn full(source: SourceText<'_>) -> (r: Span)
        requires
            source.end_position_ok(),
        ensures
            r == enclosing(source.offset, source.end_position_spec()),
    {
        Span::new_enclosing(source.start_position(), source.end_position())
    }

    /// Returns true if the span is as long as the entire source text.
    pub fn is_full(&self, source: SourceText<'_>) -> (r: bool)
        requires
            self.byte.start <= self.byte.end,
        ensures
            r == (self.byte.end - self.byte.start == source.bytes().len()),
    {
        (self.byte.end - self.byte.start) == source.len()
    }

    /// Whether the span can be widened to whole lines of the source.
    pub open spec fn widen_ok(self, source: SourceText<'_>) -> bool {
        &&& self.byte.start <= self.byte.end
        &&& source.offset.byte <= self.byte.start
        &&& source.line_end_ok(self.end_pos())
    }

    /// The span widened to whole lines of the source.
    pub open spec fn widen_spec(self, source: SourceText<'_>) -> Span {
        if self.byte.end - self.byte.start == source.bytes().len() {
            self
        } else {
            enclosing(
                source.line_start_spec(self.start_pos()),
                source.line_end_spec(self.end_pos()),
            )
        }
    }

    /// Widens the span on the left and right to the nearest line breaks,
    /// unless it already covers the whole text.
    pub fn widen_to_line(&self, source: SourceText<'_>) -> (r: Span)
        requires
            self.widen_ok(source),
        ensures
            r == self.widen_spec(source),
    {
        if self.is_full(source) {
            return *self;
        }
        Span::new_enclosing(
            source.line_start_position(self.start()),
            source.line_end_position(self.end()),
        )
    }

    /// Returns an iterator over the lines of the span.
    pub fn split_lines<'text>(&self, source: SourceText<'text>) -> (r: SplitLines<'text>)
        ensures
            r == (SplitLines { source, start: self.start_pos(), end: self.end_pos() }),
    {
        SplitLines { source, start: self.start(), end: self.end() }
    }
}

/// An iterator over the lines of a span: each step yields the part of the
/// span on one line.
#[derive(Debug, Clone, Copy)]
pub struct SplitLines<'text> {
    /// The source text.
    pub source: SourceText<'text>,
    /// The start of the remaining lines.
    pub start: Pos,
    /// The end of the span.
    pub end: Pos,
}

impl<'text> SplitLines<'text> {
    /// Whether the next step succeeds: on the last line the line number can
    /// advance; before it, the line can be measured and ends in a line break.
    pub open spec fn next_ok(self) -> bool {
        if self.start.page.line > self.end.page.line {
            true
        } else if self.start.page.line == self.end.page.line {
            self.start.page.line < usize::MAX
        } else {
            &&& self.source.line_end_ok(self.start)
            &&& line_end_spec(self.source.metrics, self.source.bytes(), self.source.rel(self.start)).byte
                < self.source.bytes().len()
        }
    }

    /// The span yielded by the next step, and the start of the line after.
    pub open spec fn next_spec(self) -> (Option<Span>, Pos) {
        if self.start.page.line > self.end.page.line {
            (None, self.start)
        } else if self.start.page.line == self.end.page.line {
            (
                Some(enclosing(self.start, self.end)),
                Pos {
                    page: crate::position::Page {
                        line: (self.start.page.line + 1) as usize,
                        ..self.start.page
                    },
                    ..self.start
                },
            )
        } else {
            let e = self.source.line_end_spec(self.start);
            (
                Some(enclosing(self.start, e)),
                self.source.abs(
                    next_position_spec(
                        self.source.metrics,
                        self.source.bytes(),
                        self.source.rel(e),
                    )->0,
                ),
            )
        }
    }

    /// Returns the part of the span on the next line.
    pub fn next(&mut self) -> (r: Option<Span>)
        requires
            old(self).next_ok(),
        ensures
            r == old(self).next_spec().0,
            final(self).start == old(self).next_spec().1,
            final(self).end == old(self).end,
            final(self).source == old(self).source,
    {
        if self.start.page.line > self.end.page.line {
            None
        } else if self.start.page.line == self.end.page.line {
            let res = Span::new_enclosing(self.start, self.end);
            self.start.page.line = self.start.page.line + 1;
            Some(res)
        } else {
            let end = self.source.line_end_position(self.start);
            let res = Span::new_enclosing(self.start, end);
            proof {
                crate::metrics::lemma_text_bounds(self.source.text);
            }
            let next = self.source.next_position(end);
            match next {
                Some(p) => {
                    self.start = p;
                },
                None => {},
            }
            Some(res)
        }
    }

    /// Returns the number of line spans still to come: one for each line
    /// from the remaining start's line to the end's line, none once the
    /// start has passed the end.
    pub fn len(&self) -> (r: usize)
        requires
            self.start.page.line > self.end.page.line || self.end.page.line
                - self.start.page.line < usize::MAX,
        ensures
            r == if self.start.page.line <= self.end.page.line {
                self.end.page.line - self.start.page.line + 1
            } else {
                0
            },
    {
        if self.start.page.line > self.end.page.line {
            0
        } else {
            self.end.page.line - self.start.page.line + 1
        }
    }
}

/// A span that starts no later than it ends contains both of its boundary
/// points.
pub proof fn lemma_contains_boundaries(s: Span)
    requires
        s.well_ordered(),
    ensures
        s.contains_spec(s.start_pos()),
        s.contains_spec(s.end_pos()),
{
}

/// Whether two spans intersect does not depend on their order.
pub proof fn lemma_intersects_symmetric(a: Span, b: Span)
    ensures
        (a.contains_spec(b.start_pos()) || a.contains_spec(b.end_pos()) || b.contains_spec(
            a.start_pos(),
        ) || b.contains_spec(a.end_pos())) == (b.contains_spec(a.start_pos()) || b.contains_spec(
            a.end_pos(),
        ) || a.contains_spec(b.start_pos()) || a.contains_spec(b.end_pos())),
{
}

/// The enclosing span of two spans does not depend on their order, starts
/// no later than it ends, and contains every position of either span.
pub proof fn lemma_enclose(a: Span, b: Span, p: Pos)
    requires
        a.well_ordered(),
        b.well_ordered(),
    ensures
        enclosing(pos_min(a.start_pos(), b.start_pos()), pos_max(a.end_pos(), b.end_pos()))
            == enclosing(pos_min(b.start_pos(), a.start_pos()), pos_max(b.end_pos(), a.end_pos())),
        enclosing(
            pos_min(a.start_pos(), b.start_pos()),
            pos_max(a.end_pos(), b.end_pos()),
        ).well_ordered(),
        a.contains_spec(p) || b.contains_spec(p) ==> enclosing(
            pos_min(a.start_pos(), b.start_pos()),
            pos_max(a.end_pos(), b.end_pos()),
        ).contains_spec(p),
{
    crate::position::lemma_pos_le_total_order(a.start_pos(), b.start_pos(), p);
    crate::position::lemma_pos_le_total_order(a.end_pos(), b.end_pos(), p);
    crate::position::lemma_pos_le_total_order(a.start_pos(), a.end_pos(), b.end_pos());
    crate::position::lemma_pos_le_total_order(b.start_pos(), b.end_pos(), a.end_pos());
    crate::position::lemma_pos_le_total_order(a.start_pos(), p, a.end_pos());
    crate::position::lemma_pos_le_total_order(b.start_pos(), p, b.end_pos());
}

/// The intersection of two well-ordered spans does not depend on their
/// order; where present it starts no later than it ends and lies within
/// both spans.
pub proof fn lemma_intersect(a: Span, b: Span, p: Pos)
    requires
        a.well_ordered(),
        b.well_ordered(),
    ensures
        Span::intersect_spec(a, b) == Span::intersect_spec(b, a),
        Span::intersect_spec(a, b) matches Some(s) ==> {
            &&& s.well_ordered()
            &&& (s.contains_spec(p) ==> a.contains_spec(p) && b.contains_spec(p))
        },
{
    crate::position::lemma_pos_le_total_order(a.start_pos(), b.start_pos(), p);
    crate::position::lemma_pos_le_total_order(a.end_pos(), b.end_pos(), p);
    crate::position::lemma_pos_le_total_order(a.start_pos(), a.end_pos(), b.end_pos());
    crate::position::lemma_pos_le_total_order(b.start_pos(), b.end_pos(), a.end_pos());
    crate::position::lemma_pos_le_total_order(a.start_pos(), b.end_pos(), p);
    crate::position::lemma_pos_le_total_order(b.start_pos(), a.end_pos(), p);
    crate::position::lemma_pos_le_total_order(a.start_pos(), p, a.end_pos());
    crate::position::lemma_pos_le_total_order(b.start_pos(), p, b.end_pos());
    crate::position::lemma_pos_le_total_order(a.start_pos(), b.start_pos(), a.end_pos());
    crate::position::lemma_pos_le_total_order(b.start_pos(), a.start_pos(), b.end_pos());
}

/// A position that lies in both of two well-ordered spans lies in their
/// intersection: the intersection is present and contains it. With
/// `lemma_intersect`, the intersection holds exactly the positions common
/// to both spans.
pub proof fn lemma_intersect_keeps_common(a: Span, b: Span, p: Pos)
    requires
        a.well_ordered(),
        b.well_ordered(),
        a.contains_spec(p),
        b.contains_spec(p),
    ensures
        Span::intersect_spec(a, b) matches Some(s) && s.contains_spec(p),
{
    crate::position::lemma_pos_le_total_order(a.start_pos(), b.start_pos(), p);
    crate::position::lemma_pos_le_total_order(a.end_pos(), b.end_pos(), p);
    crate::position::lemma_pos_le_total_order(a.start_pos(), p, a.end_pos());
    crate::position::lemma_pos_le_total_order(b.start_pos(), p, b.end_pos());
    crate::position::lemma_pos_le_total_order(a.start_pos(), p, b.end_pos());
    crate::position::lemma_pos_le_total_order(b.start_pos(), p, a.end_pos());
    crate::position::lemma_pos_le_total_order(a.start_pos(), b.start_pos(), a.end_pos());
    crate::position::lemma_pos_le_total_order(b.start_pos(), a.start_pos(), b.end_pos());
    crate::position::lemma_pos_le_total_order(p, a.end_pos(), b.end_pos());
    crate::position::lemma_pos_le_total_order(p, b.end_pos(), a.end_pos());
}

/// The intersection of a well-ordered span with a span that lies within it
/// is that inner span, whichever order the two are given in.
pub proof fn lemma_intersect_inner(a: Span, b: Span)
    requires
        a.well_ordered(),
        b.well_ordered(),
        a.contains_spec(b.start_pos()),
        a.contains_spec(b.end_pos()),
    ensures
        Span::intersect_spec(a, b) == Some(b),
        Span::intersect_spec(b, a) == Some(b),
{
    crate::position::lemma_pos_le_total_order(a.start_pos(), b.start_pos(), b.end_pos());
    crate::position::lemma_pos_le_total_order(b.start_pos(), a.start_pos(), a.end_pos());
    crate::position::lemma_pos_le_total_order(b.end_pos(), a.end_pos(), a.start_pos());
    crate::position::lemma_pos_le_total_order(a.end_pos(), b.end_pos(), b.start_pos());
    assert(enclosing(b.start_pos(), b.end_pos()) == b);
}

/// Whether `p` lies strictly between the ends of `s`.
pub open spec fn strictly_inside(s: Span, p: Pos) -> bool {
    pos_lt(s.start_pos(), p) && pos_lt(p, s.end_pos())
}

/// Each piece that removing `b` from `a` leaves starts no later than it
/// ends, lies within `a`, and shares no inner position with `b`.
pub proof fn lemma_minus_pieces(a: Span, b: Span, p: Pos)
    requires
        a.well_ordered(),
        b.well_ordered(),
    ensures
        Span::minus_left_spec(a, b) matches Some(s) ==> {
            &&& s.well_ordered()
            &&& s.contains_spec(p) ==> a.contains_spec(p)
            &&& !(strictly_inside(s, p) && strictly_inside(b, p))
        },
        Span::minus_right_spec(a, b) matches Some(s) ==> {
            &&& s.well_ordered()
            &&& s.contains_spec(p) ==> a.contains_spec(p)
            &&& !(strictly_inside(s, p) && strictly_inside(b, p))
        },
{
    crate::position::lemma_pos_le_total_order(a.start_pos(), b.start_pos(), a.end_pos());
    crate::position::lemma_pos_le_total_order(a.start_pos(), b.end_pos(), a.end_pos());
    crate::position::lemma_pos_le_total_order(p, b.start_pos(), a.end_pos());
    crate::position::lemma_pos_le_total_order(a.start_pos(), b.end_pos(), p);
    crate::position::lemma_pos_le_total_order(a.start_pos(), p, a.end_pos());
    crate::position::lemma_pos_le_total_order(b.start_pos(), p, b.end_pos());
}

/// The end of a line reached from a position within the text lies between
/// that position and the end of the text.
proof fn lemma_line_end_bounds(m: crate::metrics::ColumnMetrics, b: Seq<u8>, p: Pos)
    requires
        p.byte <= b.len(),
    ensures
        p.byte <= line_end_spec(m, b, p).byte <= b.len(),
    decreases b.len() - p.byte,
{
    if !(p.byte >= b.len() || crate::metrics::line_break_at(m.line_ending, b, p.byte as int)) {
        match next_position_spec(m, b, p) {
            Some(q) => {
                if p.byte < q.byte <= b.len() {
                    lemma_line_end_bounds(m, b, q);
                }
            },
            None => {},
        }
    }
}

/// Widening a span to whole lines a second time changes nothing.
pub proof fn lemma_widen_idempotent(s: Span, source: SourceText<'_>)
    requires
        s.widen_ok(source),
    ensures
        s.widen_spec(source).widen_spec(source) == s.widen_spec(source),
{
    let w = s.widen_spec(source);
    if s.byte.end - s.byte.start != source.bytes().len() {
        let b = source.bytes();
        let m = source.metrics;
        let le = m.line_ending;
        crate::metrics::lemma_text_bounds(source.text);
        let start_rel = source.rel(s.start_pos());
        let end_rel = source.rel(s.end_pos());
        crate::metrics::lemma_line_start_byte_bounds(le, b, start_rel.byte as int);
        let j = crate::metrics::line_start_byte(le, b, start_rel.byte as int);
        assert(crate::metrics::line_start_byte(le, b, j) == j);
        crate::metrics::lemma_line_end_stops(m, b, end_rel);
        lemma_line_end_bounds(m, b, end_rel);
        let q = line_end_spec(m, b, end_rel);
        assert(line_end_spec(m, b, q) == q);
        assert(source.rel(w.start_pos()).byte == j);
        assert(source.rel(w.end_pos()) == q);
        if w.byte.end - w.byte.start != source.bytes().len() {
            assert(source.line_start_spec(w.start_pos()) == w.start_pos());
            assert(source.line_end_spec(w.end_pos()) == w.end_pos());
        }
    }
}

impl Default for Span {
    fn default() -> (r: Span)
        ensures
            r == enclosing(Pos::new_spec(0, 0, 0), Pos::new_spec(0, 0, 0)),
    {
        Span::new()
    }
}

} // verus!
