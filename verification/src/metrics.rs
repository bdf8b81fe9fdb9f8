//! Column metrics: how line endings and tabs move a position through text.
//!
//! A text is modelled by its UTF-8 bytes (`text.spec_bytes()`); positions
//! carry a byte offset into those bytes, which must fall on a character
//! boundary, together with a line and a display column.
use vstd::prelude::*;
use vstd::string::*;
use vstd::utf8::*;
use unicode_width::UnicodeWidthChar;
use crate::position::Pos;
use crate::position::Page;
use crate::source::IterColumns;

verus! {

broadcast use vstd::seq::group_seq_axioms;

/// The default tab width.
pub const DEFAULT_TAB_WIDTH: u8 = 4;

/// Line endings used to track page positioning.
#[derive(Debug, Clone, Copy, PartialEq, Eq, Hash, Structural)]
pub enum LineEnding {
    /// Lines end in a `'\n'` character.
    Lf,
    /// Lines end in a `'\r'` character.
    Cr,
    /// Lines end in a `'\r\n'` character sequence.
    CrLf,
}

/// The characters of a line ending.
pub open spec fn line_break_chars(le: LineEnding) -> Seq<char> {
    match le {
        LineEnding::Lf => seq!['\n'],
        LineEnding::Cr => seq!['\r'],
        LineEnding::CrLf => seq!['\r', '\n'],
    }
}

/// The UTF-8 bytes of a line ending.
pub open spec fn line_break_bytes(le: LineEnding) -> Seq<u8> {
    match le {
        LineEnding::Lf => seq![10u8],
        LineEnding::Cr => seq![13u8],
        LineEnding::CrLf => seq![13u8, 10u8],
    }
}

impl Default for LineEnding {
    fn default() -> (r: LineEnding)
        ensures
            r == LineEnding::Lf,
    {
        LineEnding::Lf
    }
}

impl LineEnding {
    /// Returns the line ending as a string.
    pub fn as_str(self) -> (r: &'static str)
        ensures
            r@ == line_break_chars(self),
    {
        match self {
            LineEnding::Lf => {
                proof {
                    reveal_strlit("\n");
                }
                assert("\n"@ =~= seq!['\n']);
                "\n"
            },
            LineEnding::Cr => {
                proof {
                    reveal_strlit("\r");
                }
                assert("\r"@ =~= seq!['\r']);
                "\r"
            },
            LineEnding::CrLf => {
                proof {
                    reveal_strlit("\r\n");
                }
                assert("\r\n"@ =~= seq!['\r', '\n']);
                "\r\n"
            },
        }
    }
}

/// Line ending and tab width measurements for column positioning.
#[derive(Debug, Clone, Copy, PartialEq, Eq, Hash, Structural)]
pub struct ColumnMetrics {
    /// The source line ending.
    pub line_ending: LineEnding,
    /// The source tab width.
    pub tab_width: u8,
}

impl Default for ColumnMetrics {
    fn default() -> (r: ColumnMetrics)
        ensures
            r == (ColumnMetrics { line_ending: LineEnding::Lf, tab_width: DEFAULT_TAB_WIDTH }),
    {
        ColumnMetrics::new()
    }
}

impl ColumnMetrics {
    /// The default column metrics: line feeds end lines, tabs are four
    /// columns wide.
    pub open spec fn new_spec() -> ColumnMetrics {
        ColumnMetrics { line_ending: LineEnding::Lf, tab_width: DEFAULT_TAB_WIDTH }
    }

    /// Returns a new `ColumnMetrics` with the default values.
    pub fn new() -> (r: ColumnMetrics)
        ensures
            r == (ColumnMetrics { line_ending: LineEnding::Lf, tab_width: DEFAULT_TAB_WIDTH }),
    {
        ColumnMetrics { line_ending: LineEnding::Lf, tab_width: DEFAULT_TAB_WIDTH }
    }

    /// Sets the line ending style.
    pub fn with_line_ending(self, line_ending: LineEnding) -> (r: ColumnMetrics)
        ensures
            r == (ColumnMetrics { line_ending, ..self }),
    {
        ColumnMetrics { line_ending, ..self }
    }

    /// Sets the tab width.
    pub fn with_tab_width(self, tab_width: u8) -> (r: ColumnMetrics)
        ensures
            r == (ColumnMetrics { tab_width, ..self }),
    {
        ColumnMetrics { tab_width, ..self }
    }
}

impl ColumnMetrics {
    /// Returns true if a line break is positioned at the given byte position
    /// in the text.
    pub fn is_line_break(&self, text: &str, byte: usize) -> (r: bool)
        requires
            is_char_boundary(text.spec_bytes(), byte as int),
        ensures
            r == line_break_at(self.line_ending, text.spec_bytes(), byte as int),
    {
        line_break_at_bytes(self.line_ending, text.as_bytes(), byte)
    }

    /// Returns the next column-aligned position after the given base
    /// position within the given text. `None` is returned if the result
    /// position is not within the text.
    pub fn next_position(&self, text: &str, base: Pos) -> (r: Option<Pos>)
        requires
            is_char_boundary(text.spec_bytes(), base.byte as int),
            next_position_ok(*self, text.spec_bytes(), base),
        ensures
            r == next_position_spec(*self, text.spec_bytes(), base),
            r is None <==> base.byte == text.spec_bytes().len(),
            r matches Some(q) ==> base.byte < q.byte <= text.spec_bytes().len()
                && is_char_boundary(text.spec_bytes(), q.byte as int),
            r matches Some(q) ==> (room(text.spec_bytes(), base) ==> room(text.spec_bytes(), q)),
    {
        let bytes = text.as_bytes();
        let n = bytes.len();
        proof {
            lemma_text_bounds(text);
        }
        if line_break_at_bytes(self.line_ending, bytes, base.byte) {
            proof {
                lemma_step(*self, text.spec_bytes(), base);
            }
            let lb_len: usize = match self.line_ending {
                LineEnding::CrLf => 2,
                _ => 1,
            };
            return Some(Pos::new(base.byte + lb_len, base.page.line + 1, 0));
        }
        if base.byte >= n {
            return None;
        }
        proof {
            lemma_step(*self, text.spec_bytes(), base);
            lemma_char_at_decoded(text.spec_bytes(), base.byte as int);
        }
        let (c, clen) = char_at_byte(text, base.byte);
        if c == '\t' {
            let tab = self.tab_width as usize;
            let stop = tab - (base.page.column % tab);
            Some(Pos::new(base.byte + 1, base.page.line, base.page.column + stop))
        } else {
            let w = char_display_width(c);
            Some(Pos::new(base.byte + clen, base.page.line, base.page.column + w))
        }
    }
}

impl ColumnMetrics {
    /// Returns the position of the end of the line containing the given
    /// base position.
    pub fn line_end_position(&self, text: &str, base: Pos) -> (r: Pos)
        requires
            is_char_boundary(text.spec_bytes(), base.byte as int),
            room(text.spec_bytes(), base),
            tabs_ok(*self, text.spec_bytes(), base.byte as int),
        ensures
            r == line_end_spec(*self, text.spec_bytes(), base),
            base.byte <= r.byte <= text.spec_bytes().len(),
            is_char_boundary(text.spec_bytes(), r.byte as int),
            room(text.spec_bytes(), r),
            r.byte == text.spec_bytes().len() || line_break_at(
                self.line_ending,
                text.spec_bytes(),
                r.byte as int,
            ),
    {
        let ghost b = text.spec_bytes();
        let n = text.as_bytes().len();
        proof {
            lemma_text_bounds(text);
        }
        let mut end = base;
        while end.byte < n
            invariant
                b == text.spec_bytes(),
                n == b.len(),
                valid_utf8(b),
                b.len() <= usize::MAX,
                base.byte <= end.byte <= n,
                is_char_boundary(b, end.byte as int),
                room(b, end),
                tabs_ok(*self, b, base.byte as int),
                line_end_spec(*self, b, end) == line_end_spec(*self, b, base),
            decreases n - end.byte,
        {
            if self.is_line_break(text, end.byte) {
                return end;
            }
            proof {
                lemma_step(*self, b, end);
            }
            match self.next_position(text, end) {
                Some(new) => end = new,
                None => return end,
            }
        }
        end
    }

    /// Returns an iterator over the column-aligned positions of the text,
    /// starting at `base`.
    pub fn iter_columns<'text>(&self, text: &'text str, base: Pos) -> (r: IterColumns<'text>)
        ensures
            r == (IterColumns { text, metrics: *self, base: Some(base) }),
    {
        IterColumns { text, metrics: *self, base: Some(base) }
    }

    /// Returns the position of the start of the line containing the given
    /// base position: its byte is the last line start at or before the base
    /// byte, its line is the base line, and its column is zero.
    pub fn line_start_position(&self, text: &str, base: Pos) -> (r: Pos)
        ensures
            r == Pos::new_spec(
                line_start_byte(self.line_ending, text.spec_bytes(), base.byte as int) as usize,
                base.page.line,
                0,
            ),
            r.byte <= base.byte,
            starts_line(self.line_ending, text.spec_bytes(), r.byte as int),
            forall|j: int|
                r.byte < j <= base.byte ==> !starts_line(
                    self.line_ending,
                    text.spec_bytes(),
                    j,
                ),
    {
        let ghost b = text.spec_bytes();
        let bytes = text.as_bytes();
        let mut start_byte = base.byte;
        while start_byte > 0
            invariant
                b == text.spec_bytes(),
                bytes@ == b,
                start_byte <= base.byte,
                forall|j: int| start_byte < j <= base.byte ==> !starts_line(self.line_ending, b, j),
                line_start_byte(self.line_ending, b, start_byte as int) == line_start_byte(
                    self.line_ending,
                    b,
                    base.byte as int,
                ),
            ensures
                line_start_byte(self.line_ending, b, start_byte as int) == line_start_byte(
                    self.line_ending,
                    b,
                    base.byte as int,
                ),
                start_byte <= base.byte,
                starts_line(self.line_ending, b, start_byte as int),
                forall|j: int| start_byte < j <= base.byte ==> !starts_line(self.line_ending, b, j),
            decreases start_byte,
        {
            if line_break_before_bytes(self.line_ending, bytes, start_byte) {
                break;
            }
            start_byte = start_byte - 1;
        }
        Pos::new(start_byte, base.page.line, 0)
    }

    /// Returns the previous column-aligned position before the given base
    /// position within the given text. `None` is returned if the result
    /// position is not within the text.
    pub fn previous_position(&self, text: &str, base: Pos) -> (r: Option<Pos>)
        requires
            is_char_boundary(text.spec_bytes(), base.byte as int),
            previous_position_ok(*self, text.spec_bytes(), base),
        ensures
            r == previous_position_spec(*self, text.spec_bytes(), base),
            r is None <==> base.byte == 0,
            r matches Some(q) ==> q.byte < base.byte && is_char_boundary(
                text.spec_bytes(),
                q.byte as int,
            ),
    {
        let ghost b = text.spec_bytes();
        let bytes = text.as_bytes();
        let n = bytes.len();
        proof {
            lemma_text_bounds(text);
            assert(base.byte <= n) by {
                reveal_with_fuel(is_char_boundary, 1);
            }
        }
        let i = base.byte;
        if line_break_before_bytes(self.line_ending, bytes, i) {
            let lb_len: usize = match self.line_ending {
                LineEnding::CrLf => 2,
                _ => 1,
            };
            proof {
                let j = i - lb_len;
                assert(b[j] == line_break_bytes(self.line_ending)[0]);
                is_char_boundary_iff_not_is_continuation_byte(b, j);
            }
            return Some(Pos::new(i - lb_len, base.page.line - 1, 0));
        }
        if i == 0 {
            return None;
        }
        let k = prev_char_start(text, i);
        proof {
            lemma_prev_boundary(b, i as int, k as int);
            lemma_char_at_decoded(b, k as int);
        }
        let (c, clen) = char_at_byte(text, k);
        if c == '\t' {
            let t = i - 1;
            let start = self.line_start_position(text, base);
            let mut new_pos = start;
            proof {
                lemma_line_start_byte_bounds(self.line_ending, b, i as int);
                is_char_boundary_iff_not_is_continuation_byte(b, t as int);
                assert(is_char_boundary(b, start.byte as int)) by {
                }
            }
            while new_pos.byte < t
                invariant
                    b == text.spec_bytes(),
                    valid_utf8(b),
                    b.len() <= usize::MAX,
                    t == i - 1,
                    t < b.len(),
                    b[t as int] == 9u8,
                    is_char_boundary(b, t as int),
                    start.byte <= new_pos.byte <= t,
                    is_char_boundary(b, new_pos.byte as int),
                    room(b, new_pos),
                    self.tab_width > 0 || forall|j: int| start.byte <= j < t ==> b[j] != 9u8,
                    walk_to(*self, b, new_pos, t as int) == walk_to(*self, b, start, t as int),
                decreases t - new_pos.byte,
            {
                proof {
                    lemma_step(*self, b, new_pos);
                    lemma_step_to_tab(*self, b, new_pos, t as int);
                }
                match self.next_position(text, new_pos) {
                    Some(q) => {
                        new_pos = q;
                    },
                    None => {
                        return None;
                    },
                }
            }
            Some(new_pos)
        } else {
            let w = char_display_width(c);
            Some(Pos::new(i - clen, base.page.line, base.page.column - w))
        }
    }

    /// Returns whether `previous_position` accepts `base` (see
    /// `previous_position_ok`), testing each condition.
    pub fn previous_position_accepts(&self, text: &str, base: Pos) -> (r: bool)
        requires
            is_char_boundary(text.spec_bytes(), base.byte as int),
        ensures
            r == previous_position_ok(*self, text.spec_bytes(), base),
    {
        let ghost b = text.spec_bytes();
        let bytes = text.as_bytes();
        let n = bytes.len();
        proof {
            lemma_text_bounds(text);
            assert(base.byte <= n) by {
                reveal_with_fuel(is_char_boundary, 1);
            }
        }
        let i = base.byte;
        if line_break_before_bytes(self.line_ending, bytes, i) {
            return base.page.line >= 1;
        }
        if i == 0 {
            return true;
        }
        let k = prev_char_start(text, i);
        let (c, _) = char_at_byte(text, k);
        if c == '\t' {
            let start = self.line_start_position(text, base);
            proof {
                lemma_line_start_byte_bounds(self.line_ending, b, i as int);
            }
            let ls = start.byte;
            if !(ls < i) {
                return false;
            }
            let d = n - ls;
            if d > usize::MAX - base.page.line {
                return false;
            }
            if d > usize::MAX / 255 {
                proof {
                    assert(255 * d > usize::MAX) by (nonlinear_arith)
                        requires
                            d > usize::MAX / 255,
                    ;
                }
                return false;
            }
            proof {
                assert(255 * d <= usize::MAX) by (nonlinear_arith)
                    requires
                        d <= usize::MAX / 255,
                ;
            }
            if self.tab_width > 0 {
                return true;
            }
            no_tab_between(bytes, ls, i - 1)
        } else {
            let w = char_display_width(c);
            base.page.column >= w
        }
    }

    /// Returns `previous_position(text, base)` where `previous_position`
    /// accepts `base`, and `None` where it does not.
    pub fn checked_previous_position(&self, text: &str, base: Pos) -> (r: Option<Option<Pos>>)
        requires
            is_char_boundary(text.spec_bytes(), base.byte as int),
        ensures
            r is None <==> !previous_position_ok(*self, text.spec_bytes(), base),
            r matches Some(x) ==> x == previous_position_spec(*self, text.spec_bytes(), base),
    {
        if self.previous_position_accepts(text, base) {
            Some(self.previous_position(text, base))
        } else {
            None
        }
    }

    /// Returns `start_position(text, end)` where every step back is one that
    /// `previous_position` accepts, and `None` otherwise.
    pub fn checked_start_position(&self, text: &str, end: Pos) -> (r: Option<Pos>)
        requires
            is_char_boundary(text.spec_bytes(), end.byte as int),
        ensures
            r is Some <==> start_position_ok(*self, text.spec_bytes(), end),
            r matches Some(p) ==> p == start_position_spec(*self, text.spec_bytes(), end),
    {
        let ghost b = text.spec_bytes();
        let mut start = end;
        while start.byte > 0
            invariant
                b == text.spec_bytes(),
                is_char_boundary(b, start.byte as int),
                start_position_ok(*self, b, start) == start_position_ok(*self, b, end),
                start_position_spec(*self, b, start) == start_position_spec(*self, b, end),
            decreases start.byte,
        {
            if !self.previous_position_accepts(text, start) {
                return None;
            }
            match self.previous_position(text, start) {
                Some(new) => start = new,
                None => return Some(start),
            }
        }
        Some(start)
    }

    /// Returns `previous_line_end_position(text, base)` where
    /// `previous_position` accepts the start of the line of `base`, and
    /// `None` otherwise.
    pub fn checked_previous_line_end_position(&self, text: &str, base: Pos) -> (r: Option<
        Option<Pos>,
    >)
        ensures
            ({
                let ls = Pos::new_spec(
                    line_start_byte(self.line_ending, text.spec_bytes(), base.byte as int) as usize,
                    base.page.line,
                    0,
                );
                &&& r is None <==> !previous_position_ok(*self, text.spec_bytes(), ls)
                &&& r matches Some(x) ==> x == previous_position_spec(*self, text.spec_bytes(), ls)
                &&& r matches Some(Some(q)) ==> q.byte < ls.byte
            }),
    {
        let ghost b = text.spec_bytes();
        let start = self.line_start_position(text, base);
        proof {
            lemma_text_bounds(text);
            lemma_line_start_byte_bounds(self.line_ending, b, base.byte as int);
        }
        if self.previous_position_accepts(text, start) {
            Some(self.previous_line_end_position(text, base))
        } else {
            None
        }
    }

    /// Returns the start position of the text, given its end position.
    pub fn start_position(&self, text: &str, end: Pos) -> (r: Pos)
        requires
            is_char_boundary(text.spec_bytes(), end.byte as int),
            start_position_ok(*self, text.spec_bytes(), end),
        ensures
            r == start_position_spec(*self, text.spec_bytes(), end),
            r.byte == 0,
    {
        let ghost b = text.spec_bytes();
        let mut start = end;
        while start.byte > 0
            invariant
                b == text.spec_bytes(),
                is_char_boundary(b, start.byte as int),
                start_position_ok(*self, b, start),
                start_position_spec(*self, b, start) == start_position_spec(*self, b, end),
            decreases start.byte,
        {
            match self.previous_position(text, start) {
                Some(new) => start = new,
                None => return start,
            }
        }
        start
    }

    /// Returns the position at the end of the line before the line that
    /// contains the given base position.
    pub fn previous_line_end_position(&self, text: &str, base: Pos) -> (r: Option<Pos>)
        requires
            previous_position_ok(
                *self,
                text.spec_bytes(),
                Pos::new_spec(
                    line_start_byte(self.line_ending, text.spec_bytes(), base.byte as int) as usize,
                    base.page.line,
                    0,
                ),
            ),
        ensures
            r == previous_position_spec(
                *self,
                text.spec_bytes(),
                Pos::new_spec(
                    line_start_byte(self.line_ending, text.spec_bytes(), base.byte as int) as usize,
                    base.page.line,
                    0,
                ),
            ),
            r matches Some(q) ==> q.byte < line_start_byte(
                self.line_ending,
                text.spec_bytes(),
                base.byte as int,
            ),
    {
        let ghost b = text.spec_bytes();
        let start = self.line_start_position(text, base);
        proof {
            lemma_text_bounds(text);
            lemma_line_start_byte_bounds(self.line_ending, b, base.byte as int);
        }
        self.previous_position(text, start)
    }

    /// Returns the position at the start of the line after the line that
    /// contains the given base position.
    pub fn next_line_start_position(&self, text: &str, base: Pos) -> (r: Option<Pos>)
        requires
            is_char_boundary(text.spec_bytes(), base.byte as int),
            room(text.spec_bytes(), base),
            tabs_ok(*self, text.spec_bytes(), base.byte as int),
        ensures
            r == next_position_spec(
                *self,
                text.spec_bytes(),
                line_end_spec(*self, text.spec_bytes(), base),
            ),
            r is None <==> line_end_spec(*self, text.spec_bytes(), base).byte
                == text.spec_bytes().len(),
            r matches Some(q) ==> q.byte <= text.spec_bytes().len(),
    {
        let ghost b = text.spec_bytes();
        let n = text.as_bytes().len();
        let end = self.line_end_position(text, base);
        proof {
            assert(n == b.len());
            lemma_text_bounds(text);
            if end.byte < b.len() {
                lemma_step(*self, b, end);
            }
        }
        self.next_position(text, end)
    }

    /// Returns the position after the given pattern, given its start
    /// position: the text from `start` must begin with the pattern, and the
    /// position reached is found by stepping over its characters.
    pub fn position_after_str(&self, text: &str, start: Pos, pattern: &str) -> (r: Option<Pos>)
        requires
            is_char_boundary(text.spec_bytes(), start.byte as int),
            after_str_ok(*self, text.spec_bytes(), pattern.spec_bytes(), start, start),
        ensures
            r matches Some(e) ==> {
                &&& starts_with_at(text.spec_bytes(), start.byte as int, pattern.spec_bytes())
                &&& e.byte == start.byte + pattern.spec_bytes().len()
                &&& e == walk_to(*self, text.spec_bytes(), start, e.byte as int)
            },
            r is None ==> !starts_with_at(text.spec_bytes(), start.byte as int, pattern.spec_bytes())
                || pattern.spec_bytes().len() == 0,
    {
        let ghost b = text.spec_bytes();
        let ghost pb = pattern.spec_bytes();
        let tb = text.as_bytes();
        let pbytes = pattern.as_bytes();
        let n = tb.len();
        let plen = pbytes.len();
        proof {
            lemma_text_bounds(text);
            lemma_text_bounds(pattern);
        }
        let mut end = start;
        loop
            invariant
                b == text.spec_bytes(),
                tb@ == b,
                pbytes@ == pb,
                pb == pattern.spec_bytes(),
                n == b.len(),
                plen == pb.len(),
                valid_utf8(b),
                valid_utf8(pb),
                b.len() <= usize::MAX,
                start.byte <= end.byte <= n,
                end.byte - start.byte <= plen,
                end.byte - start.byte < plen || plen == 0,
                is_char_boundary(b, end.byte as int),
                after_str_ok(*self, b, pb, start, end),
                end == walk_to(*self, b, start, end.byte as int),
                b.subrange(start.byte as int, end.byte as int) =~= pb.subrange(
                    0,
                    end.byte - start.byte,
                ),
            decreases n - end.byte,
        {
            let next = self.next_position(text, end);
            let adv = match next {
                Some(adv) => adv,
                None => {
                    proof {
                        assert(end.byte == n);
                        if starts_with_at(b, start.byte as int, pb) && plen > 0 {
                            assert(start.byte + plen <= n);
                            assert(false);
                        }
                    }
                    return None;
                },
            };
            let k0 = end.byte - start.byte;
            let k1 = adv.byte - start.byte;
            proof {
                assert(k1 <= plen);
            }
            if !bytes_range_eq(pbytes, k0, tb, end.byte, k1 - k0) {
                proof {
                    if starts_with_at(b, start.byte as int, pb) {
                        let whole = b.subrange(start.byte as int, start.byte + plen);
                        assert forall|x: int| 0 <= x < k1 - k0 implies pb.subrange(
                            k0 as int,
                            k1 as int,
                        )[x] == b.subrange(end.byte as int, adv.byte as int)[x] by {
                            assert(whole[k0 + x] == pb[k0 + x]);
                        }
                        assert(pb.subrange(k0 as int, k1 as int) =~= b.subrange(
                            end.byte as int,
                            adv.byte as int,
                        ));
                    }
                }
                return None;
            }
            proof {
                lemma_walk_extend(*self, b, start, end);
                assert(b.subrange(start.byte as int, adv.byte as int) =~= pb.subrange(0, k1 as int))
                    by {
                    assert(b.subrange(start.byte as int, adv.byte as int) =~= b.subrange(
                        start.byte as int,
                        end.byte as int,
                    ) + b.subrange(end.byte as int, adv.byte as int));
                    assert(pb.subrange(0, k1 as int) =~= pb.subrange(0, k0 as int) + pb.subrange(
                        k0 as int,
                        k1 as int,
                    ));
                }
            }
            if k1 >= plen {
                proof {
                    assert(pb.subrange(0, k1 as int) =~= pb);
                }
                return Some(adv);
            }
            end = adv;
        }
    }

    /// Returns the position after the characters from `start` that `f`
    /// accepts, stepping over whole characters and line breaks; `None` if
    /// `f` accepts none.
    pub fn position_after_chars_matching<F: Fn(char) -> bool>(
        &self,
        text: &str,
        start: Pos,
        f: F,
    ) -> (r: Option<Pos>)
        requires
            is_char_boundary(text.spec_bytes(), start.byte as int),
            room(text.spec_bytes(), start),
            tabs_ok(*self, text.spec_bytes(), start.byte as int),
            forall|c: char| f.requires((c,)),
        ensures
            r matches Some(e) ==> {
                &&& start.byte < e.byte
                &&& e == walk_to(*self, text.spec_bytes(), start, e.byte as int)
                &&& all_accepted(f, text.spec_bytes(), start.byte as int, e.byte as int)
                &&& match_stops_at(*self, text.spec_bytes(), f, e)
            },
            r is None ==> match_stops_at(*self, text.spec_bytes(), f, start),
    {
        let ghost b = text.spec_bytes();
        let n = text.as_bytes().len();
        proof {
            lemma_text_bounds(text);
        }
        let mut end = start;
        loop
            invariant
                b == text.spec_bytes(),
                n == b.len(),
                valid_utf8(b),
                start.byte <= end.byte <= n,
                is_char_boundary(b, end.byte as int),
                room(b, end),
                tabs_ok(*self, b, start.byte as int),
                forall|c: char| f.requires((c,)),
                end == walk_to(*self, b, start, end.byte as int),
                all_accepted(f, b, start.byte as int, end.byte as int),
            ensures
                start.byte <= end.byte <= n,
                end == walk_to(*self, b, start, end.byte as int),
                all_accepted(f, b, start.byte as int, end.byte as int),
                match_stops_at(*self, b, f, end),
            decreases n - end.byte,
        {
            proof {
                if end.byte < n {
                    lemma_step(*self, b, end);
                }
            }
            let adv = match self.next_position(text, end) {
                Some(adv) => adv,
                None => break,
            };
            if !chars_match(text, end.byte, adv.byte, &f) {
                break;
            }
            proof {
                lemma_walk_extend(*self, b, start, end);
            }
            end = adv;
        }
        if end.byte == start.byte {
            None
        } else {
            Some(end)
        }
    }

    /// Returns the next position after `start` if `f` accepts the
    /// characters of that step.
    pub fn next_position_after_chars_matching<F: Fn(char) -> bool>(
        &self,
        text: &str,
        start: Pos,
        f: F,
    ) -> (r: Option<Pos>)
        requires
            is_char_boundary(text.spec_bytes(), start.byte as int),
            next_position_ok(*self, text.spec_bytes(), start),
            forall|c: char| f.requires((c,)),
        ensures
            r matches Some(e) ==> {
                &&& next_position_spec(*self, text.spec_bytes(), start) == Some(e)
                &&& e.byte <= text.spec_bytes().len()
                &&& all_accepted(f, text.spec_bytes(), start.byte as int, e.byte as int)
            },
            r is None ==> match_stops_at(*self, text.spec_bytes(), f, start),
    {
        match self.next_position(text, start) {
            Some(adv) => {
                if chars_match(text, start.byte, adv.byte, &f) {
                    Some(adv)
                } else {
                    None
                }
            },
            None => None,
        }
    }

    /// Returns the end position of the text, given its start position.
    pub fn end_position(&self, text: &str, start: Pos) -> (r: Pos)
        requires
            is_char_boundary(text.spec_bytes(), start.byte as int),
            room(text.spec_bytes(), start),
            tabs_ok(*self, text.spec_bytes(), start.byte as int),
        ensures
            r == end_position_spec(*self, text.spec_bytes(), start),
            r.byte == text.spec_bytes().len(),
            room(text.spec_bytes(), r),
    {
        let ghost b = text.spec_bytes();
        let n = text.as_bytes().len();
        proof {
            lemma_text_bounds(text);
        }
        let mut end = start;
        while end.byte < n
            invariant
                b == text.spec_bytes(),
                n == b.len(),
                valid_utf8(b),
                b.len() <= usize::MAX,
                start.byte <= end.byte <= n,
                is_char_boundary(b, end.byte as int),
                room(b, end),
                tabs_ok(*self, b, start.byte as int),
                end_position_spec(*self, b, end) == end_position_spec(*self, b, start),
            ensures
                end.byte == n,
                room(b, end),
                end_position_spec(*self, b, end) == end_position_spec(*self, b, start),
            decreases n - end.byte,
        {
            proof {
                lemma_step(*self, b, end);
            }
            match self.next_position(text, end) {
                Some(new) => end = new,
                None => break,
            }
        }
        end
    }
}

// ---------------------------------------------------------------------------
// The byte model of a text.
// ---------------------------------------------------------------------------

/// The bytes of `b` from offset `i` to the end.
pub open spec fn suffix(b: Seq<u8>, i: int) -> Seq<u8> {
    b.subrange(i, b.len() as int)
}

/// The character whose encoding starts at byte `i`.
pub open spec fn char_at(b: Seq<u8>, i: int) -> char {
    decode_first_scalar(suffix(b, i)) as char
}

/// The byte length of the character whose encoding starts at byte `i`.
pub open spec fn char_len_at(b: Seq<u8>, i: int) -> int {
    length_of_first_scalar(suffix(b, i))
}

/// Whether the bytes of `b` at offset `i` start with `pat`.
pub open spec fn starts_with_at(b: Seq<u8>, i: int, pat: Seq<u8>) -> bool {
    0 <= i && i + pat.len() <= b.len() && b.subrange(i, i + pat.len()) =~= pat
}

/// Whether the bytes of `b` before offset `i` end with `pat`.
pub open spec fn ends_with_at(b: Seq<u8>, i: int, pat: Seq<u8>) -> bool {
    pat.len() <= i <= b.len() && b.subrange(i - pat.len(), i) =~= pat
}

/// Whether a line break of the given kind starts at byte `i`.
pub open spec fn line_break_at(le: LineEnding, b: Seq<u8>, i: int) -> bool {
    starts_with_at(b, i, line_break_bytes(le))
}

/// The number of bytes in a UTF-8 encoding of `c`.
pub open spec fn utf8_len(c: char) -> int {
    encode_scalar(c as u32).len() as int
}

/// What the `unicode-width` crate reports as the display width of `c`
/// (`None` for control characters).
pub uninterp spec fn unicode_char_width(c: char) -> Option<usize>;

/// The display width of `c`, control characters counting as zero columns.
pub open spec fn display_width(c: char) -> int {
    match unicode_char_width(c) {
        Some(w) => w as int,
        None => 0,
    }
}

/// The display width that `UnicodeWidthChar::width` reports for `c`.
///
/// The contract names the crate's result and states what its source shows
/// outright: the ASCII control characters `U+0000..U+0020` and
/// `U+007F..U+00A0` have no width, the printable ASCII characters have width
/// one, and no character is wider than three columns.
#[verifier::external_body]
fn char_width(c: char) -> (r: Option<usize>)
    ensures
        r == unicode_char_width(c),
        (c as u32) < 0x20 ==> r is None,
        0x7f <= (c as u32) < 0xa0 ==> r is None,
        0x20 <= (c as u32) < 0x7f ==> r == Some(1usize),
        r matches Some(w) ==> w <= 3,
{
    UnicodeWidthChar::width(c)
}

/// Returns the display width of `c`, control characters counting as zero.
pub fn char_display_width(c: char) -> (r: usize)
    ensures
        r == display_width(c),
        r <= 3,
        0x20 <= (c as u32) < 0x7f ==> r == 1,
{
    match char_width(c) {
        Some(w) => w,
        None => 0,
    }
}

/// Returns the number of bytes in the UTF-8 encoding of `c`.
pub fn char_len_utf8(c: char) -> (r: usize)
    ensures
        r == utf8_len(c),
        1 <= r <= 4,
{
    proof {
        char_is_scalar(c);
    }
    let v = c as u32;
    if v < 0x80 {
        1
    } else if v < 0x800 {
        2
    } else if v < 0x10000 {
        3
    } else {
        4
    }
}

/// A text of valid UTF-8 has its start and end as character boundaries.
pub proof fn lemma_text_bounds(text: &str)
    ensures
        valid_utf8(text.spec_bytes()),
        is_char_boundary(text.spec_bytes(), 0),
        is_char_boundary(text.spec_bytes(), text.spec_bytes().len() as int),
{
    encode_utf8_valid_utf8(text@);
    is_char_boundary_start_end_of_seq(text.spec_bytes());
}

/// No character boundary lies strictly inside the encoding of a character,
/// and the end of that encoding is a boundary.
pub proof fn lemma_char_extent(b: Seq<u8>, i: int)
    requires
        valid_utf8(b),
        is_char_boundary(b, i),
        0 <= i < b.len(),
    ensures
        valid_first_scalar(suffix(b, i)),
        1 <= char_len_at(b, i) <= 4,
        i + char_len_at(b, i) <= b.len(),
        is_char_boundary(b, i + char_len_at(b, i)),
        forall|j: int| i < j < i + char_len_at(b, i) ==> !is_char_boundary(b, j),
        forall|j: int| i < j < i + char_len_at(b, i) ==> is_continuation_byte(#[trigger] b[j]),
{
    let r = suffix(b, i);
    valid_utf8_split(b, i);
    assert(valid_utf8(r));
    assert(r.len() > 0);
    assert(valid_first_scalar(r));
    let l = length_of_first_scalar(r);
    assert(l <= r.len());
    is_char_boundary_start_end_of_seq(b);
    // The end of the first scalar is a boundary of the suffix.
    assert(is_char_boundary(r, l)) by {
        reveal_with_fuel(is_char_boundary, 2);
        is_char_boundary_start_end_of_seq(pop_first_scalar(r));
    }
    if i + l < b.len() {
        is_char_boundary_iff_not_is_continuation_byte(r, l);
        assert(r[l] == b[i + l]);
        is_char_boundary_iff_not_is_continuation_byte(b, i + l);
    }
    assert forall|j: int| i < j < i + l implies !is_char_boundary(b, j)
        && is_continuation_byte(#[trigger] b[j]) by {
        assert(!is_char_boundary(r, j - i)) by {
            reveal_with_fuel(is_char_boundary, 2);
        }
        is_char_boundary_iff_not_is_continuation_byte(r, j - i);
        assert(r[j - i] == b[j]);
        is_char_boundary_iff_not_is_continuation_byte(b, j);
    }
}


/// The number of columns a tab advances from the given column.
pub open spec fn tab_stop(m: ColumnMetrics, column: int) -> int {
    m.tab_width - column % (m.tab_width as int)
}

/// The position after the line break or character at `base`, if any.
pub open spec fn next_position_spec(m: ColumnMetrics, b: Seq<u8>, base: Pos) -> Option<Pos> {
    let i = base.byte as int;
    if line_break_at(m.line_ending, b, i) {
        Some(
            Pos::new_spec(
                (i + line_break_bytes(m.line_ending).len()) as usize,
                (base.page.line + 1) as usize,
                0,
            ),
        )
    } else if i >= b.len() {
        None
    } else if char_at(b, i) == '\t' {
        Some(
            Pos::new_spec(
                (i + 1) as usize,
                base.page.line,
                (base.page.column + tab_stop(m, base.page.column as int)) as usize,
            ),
        )
    } else {
        Some(
            Pos::new_spec(
                (i + char_len_at(b, i)) as usize,
                base.page.line,
                (base.page.column + display_width(char_at(b, i))) as usize,
            ),
        )
    }
}

/// The inputs on which stepping from `base` neither divides by a zero tab
/// width nor overflows a line or column number (a character other than a tab
/// is at most three columns wide).
pub open spec fn next_position_ok(m: ColumnMetrics, b: Seq<u8>, base: Pos) -> bool {
    let i = base.byte as int;
    if line_break_at(m.line_ending, b, i) {
        base.page.line + 1 <= usize::MAX
    } else if i >= b.len() {
        true
    } else if char_at(b, i) == '\t' {
        m.tab_width > 0 && base.page.column + tab_stop(m, base.page.column as int) <= usize::MAX
    } else {
        base.page.column + 3 <= usize::MAX
    }
}

/// Headroom for walking from `p` to the end of the text: every step adds at
/// most one line and at most 255 columns per byte consumed.
pub open spec fn room(b: Seq<u8>, p: Pos) -> bool {
    &&& p.byte <= b.len()
    &&& p.page.line + (b.len() - p.byte) <= usize::MAX
    &&& p.page.column + 255 * (b.len() - p.byte) <= usize::MAX
}

/// Whether no tab character lies in the bytes of `b` from `i` on, unless the
/// tab width is positive.
pub open spec fn tabs_ok(m: ColumnMetrics, b: Seq<u8>, i: int) -> bool {
    m.tab_width > 0 || forall|j: int| i <= j < b.len() ==> b[j] != 9u8
}

/// The position reached from `p` by stepping over line breaks and
/// characters to the end of the text.
pub open spec fn end_position_spec(m: ColumnMetrics, b: Seq<u8>, p: Pos) -> Pos
    decreases b.len() - p.byte,
{
    if p.byte >= b.len() {
        p
    } else {
        match next_position_spec(m, b, p) {
            Some(q) => if p.byte < q.byte <= b.len() {
                end_position_spec(m, b, q)
            } else {
                p
            },
            None => p,
        }
    }
}

/// The position reached from `p` by stepping over characters up to the next
/// line break or the end of the text.
pub open spec fn line_end_spec(m: ColumnMetrics, b: Seq<u8>, p: Pos) -> Pos
    decreases b.len() - p.byte,
{
    if p.byte >= b.len() || line_break_at(m.line_ending, b, p.byte as int) {
        p
    } else {
        match next_position_spec(m, b, p) {
            Some(q) => if p.byte < q.byte <= b.len() {
                line_end_spec(m, b, q)
            } else {
                p
            },
            None => p,
        }
    }
}

/// Whether byte `j` starts a line: it is the start of the text, or a whole
/// line break ends just before it.
pub open spec fn starts_line(le: LineEnding, b: Seq<u8>, j: int) -> bool {
    j == 0 || ends_with_at(b, j, line_break_bytes(le))
}

/// The last line start at or before byte `i`.
pub open spec fn line_start_byte(le: LineEnding, b: Seq<u8>, i: int) -> int
    decreases i,
{
    if i <= 0 {
        0
    } else if starts_line(le, b, i) {
        i
    } else {
        line_start_byte(le, b, i - 1)
    }
}

/// The last line start at or before `i` lies between the start of the text
/// and `i`.
pub proof fn lemma_line_start_byte_bounds(le: LineEnding, b: Seq<u8>, i: int)
    requires
        0 <= i,
    ensures
        0 <= line_start_byte(le, b, i) <= i,
        starts_line(le, b, line_start_byte(le, b, i)),
        valid_utf8(b) ==> is_char_boundary(b, line_start_byte(le, b, i)),
    decreases i,
{
    if i > 0 && !starts_line(le, b, i) {
        lemma_line_start_byte_bounds(le, b, i - 1);
    }
    if valid_utf8(b) {
        lemma_line_start_boundary(le, b, line_start_byte(le, b, i));
    }
}

/// A line start in valid UTF-8 text is a character boundary: the byte
/// before it ends a line break, which is made of ASCII characters.
pub proof fn lemma_line_start_boundary(le: LineEnding, b: Seq<u8>, j: int)
    requires
        valid_utf8(b),
        0 <= j <= b.len(),
        starts_line(le, b, j),
    ensures
        is_char_boundary(b, j),
{
    is_char_boundary_start_end_of_seq(b);
    if 0 < j < b.len() {
        let lb = line_break_bytes(le);
        let k = j - 1;
        assert(b[k] == b.subrange(j - lb.len(), j)[lb.len() - 1]);
        assert(b[k] == 10u8 || b[k] == 13u8);
        is_char_boundary_iff_not_is_continuation_byte(b, k);
        lemma_char_extent(b, k);
        lemma_char_at_decoded(b, k);
    }
}

/// Whether `k` is the boundary of the last character before byte `i`.
pub open spec fn is_prev_boundary(b: Seq<u8>, i: int, k: int) -> bool {
    &&& 0 <= k < i
    &&& is_char_boundary(b, k)
    &&& forall|j: int| k < j < i ==> !is_char_boundary(b, j)
}

/// The boundary of the last character before byte `i`.
pub open spec fn prev_boundary(b: Seq<u8>, i: int) -> int {
    choose|k: int| is_prev_boundary(b, i, k)
}

/// The position reached from `p` by stepping forward until byte `t`.
pub open spec fn walk_to(m: ColumnMetrics, b: Seq<u8>, p: Pos, t: int) -> Pos
    decreases t - p.byte,
{
    if p.byte >= t {
        p
    } else {
        match next_position_spec(m, b, p) {
            Some(q) => if p.byte < q.byte <= t {
                walk_to(m, b, q, t)
            } else {
                q
            },
            None => p,
        }
    }
}

/// The position before the line break or character that ends at `base`.
pub open spec fn previous_position_spec(m: ColumnMetrics, b: Seq<u8>, base: Pos) -> Option<Pos> {
    let i = base.byte as int;
    let lb = line_break_bytes(m.line_ending);
    if ends_with_at(b, i, lb) {
        Some(Pos::new_spec((i - lb.len()) as usize, (base.page.line - 1) as usize, 0))
    } else if i == 0 {
        None
    } else {
        let k = prev_boundary(b, i);
        let c = char_at(b, k);
        if c == '\t' {
            let ls = Pos::new_spec(
                line_start_byte(m.line_ending, b, i) as usize,
                base.page.line,
                0,
            );
            Some(walk_to(m, b, ls, i - 1))
        } else {
            Some(
                Pos::new_spec(k as usize, base.page.line, (base.page.column - display_width(c)) as usize),
            )
        }
    }
}

/// The inputs on which stepping back from `base` neither underflows a line
/// or column number nor fails to find the start of a tab: a tab is measured
/// by walking from the start of its line, which lies at or before it, with
/// room for the walk.
pub open spec fn previous_position_ok(m: ColumnMetrics, b: Seq<u8>, base: Pos) -> bool {
    let i = base.byte as int;
    let lb = line_break_bytes(m.line_ending);
    if ends_with_at(b, i, lb) {
        base.page.line >= 1
    } else if i == 0 {
        true
    } else {
        let k = prev_boundary(b, i);
        let c = char_at(b, k);
        if c == '\t' {
            let ls = line_start_byte(m.line_ending, b, i);
            &&& ls <= i - 1
            &&& room(b, Pos::new_spec(ls as usize, base.page.line, 0))
            &&& (m.tab_width > 0 || forall|j: int| ls <= j < i - 1 ==> b[j] != 9u8)
        } else {
            base.page.column >= display_width(c)
        }
    }
}

/// Whether the line break of the given kind ends at byte `i` of `b`.
fn line_break_before_bytes(le: LineEnding, b: &[u8], i: usize) -> (r: bool)
    ensures
        r == ends_with_at(b@, i as int, line_break_bytes(le)),
{
    let n = b.len();
    let r = match le {
        LineEnding::Lf => 1 <= i && i <= n && b[i - 1] == 10,
        LineEnding::Cr => 1 <= i && i <= n && b[i - 1] == 13,
        LineEnding::CrLf => 2 <= i && i <= n && b[i - 2] == 13 && b[i - 1] == 10,
    };
    proof {
        let pat = line_break_bytes(le);
        if r {
            assert(b@.subrange(i - pat.len(), i as int) =~= pat);
        }
        if ends_with_at(b@, i as int, pat) {
            assert(b@.subrange(i - pat.len(), i as int)[pat.len() - 1] == b@[i - 1]);
            if pat.len() == 2 {
                assert(b@.subrange(i - pat.len(), i as int)[0] == b@[i - 2]);
            }
        }
    }
    r
}

/// The boundary of the last character before a boundary is unique, and that
/// character ends exactly there.
pub proof fn lemma_prev_boundary(b: Seq<u8>, i: int, k: int)
    requires
        valid_utf8(b),
        is_char_boundary(b, i),
        is_prev_boundary(b, i, k),
    ensures
        prev_boundary(b, i) == k,
        k + char_len_at(b, k) == i,
{
    let k2 = prev_boundary(b, i);
    assert(is_prev_boundary(b, i, k2));
    if k2 < k {
        assert(!is_char_boundary(b, k));
    }
    if k < k2 {
        assert(!is_char_boundary(b, k2));
    }
    assert(i <= b.len()) by {
        reveal_with_fuel(is_char_boundary, 1);
    }
    lemma_char_extent(b, k);
    let l = char_len_at(b, k);
    if k + l < i {
        assert(!is_char_boundary(b, k + l));
    }
    if k + l > i {
        assert(!is_char_boundary(b, i));
    }
}

/// Stepping back over an ordinary character (neither a tab nor part of a
/// line break) undoes stepping forward over it.
pub proof fn lemma_previous_undoes_next(m: ColumnMetrics, b: Seq<u8>, p: Pos)
    requires
        valid_utf8(b),
        b.len() <= usize::MAX,
        is_char_boundary(b, p.byte as int),
        p.byte < b.len(),
        !line_break_at(m.line_ending, b, p.byte as int),
        char_at(b, p.byte as int) != '\t',
        !ends_with_at(
            b,
            p.byte + char_len_at(b, p.byte as int),
            line_break_bytes(m.line_ending),
        ),
    ensures
        p.page.column + display_width(char_at(b, p.byte as int)) <= usize::MAX ==> previous_position_spec(
            m,
            b,
            next_position_spec(m, b, p)->0,
        ) == Some(p),
{
    let i = p.byte as int;
    lemma_char_extent(b, i);
    let q = next_position_spec(m, b, p)->0;
    assert(q.byte == i + char_len_at(b, i));
    lemma_prev_boundary(b, q.byte as int, i);
}

/// Stepping to the end of a line keeps the line number.
pub proof fn lemma_line_end_keeps_line(m: ColumnMetrics, b: Seq<u8>, p: Pos)
    ensures
        line_end_spec(m, b, p).page.line == p.page.line,
    decreases b.len() - p.byte,
{
    if !(p.byte >= b.len() || line_break_at(m.line_ending, b, p.byte as int)) {
        match next_position_spec(m, b, p) {
            Some(q) => {
                if p.byte < q.byte <= b.len() {
                    lemma_line_end_keeps_line(m, b, q);
                }
            },
            None => {},
        }
    }
}

/// Stepping to the end of a line stops at a line break or at the end of
/// the text.
pub proof fn lemma_line_end_stops(m: ColumnMetrics, b: Seq<u8>, p: Pos)
    requires
        valid_utf8(b),
        b.len() <= usize::MAX,
        is_char_boundary(b, p.byte as int),
    ensures
        line_end_spec(m, b, p).byte >= b.len() || line_break_at(
            m.line_ending,
            b,
            line_end_spec(m, b, p).byte as int,
        ),
    decreases b.len() - p.byte,
{
    if !(p.byte >= b.len() || line_break_at(m.line_ending, b, p.byte as int)) {
        lemma_step(m, b, p);
        let q = next_position_spec(m, b, p)->0;
        lemma_line_end_stops(m, b, q);
    }
}

/// Stepping forward from before a tab never passes over it.
pub proof fn lemma_step_to_tab(m: ColumnMetrics, b: Seq<u8>, p: Pos, t: int)
    requires
        valid_utf8(b),
        b.len() <= usize::MAX,
        is_char_boundary(b, p.byte as int),
        is_char_boundary(b, t),
        p.byte < t < b.len(),
        b[t] == 9u8,
    ensures
        next_position_spec(m, b, p) is Some,
        next_position_spec(m, b, p)->0.byte <= t,
{
    let i = p.byte as int;
    lemma_step(m, b, p);
    lemma_char_extent(b, i);
    if line_break_at(m.line_ending, b, i) && m.line_ending == LineEnding::CrLf {
        assert(b[i + 1] == 10u8);
    }
}

/// The position reached from `p` by stepping back over line breaks and
/// characters to the start of the text.
pub open spec fn start_position_spec(m: ColumnMetrics, b: Seq<u8>, p: Pos) -> Pos
    decreases p.byte,
{
    if p.byte == 0 {
        p
    } else {
        match previous_position_spec(m, b, p) {
            Some(q) => if q.byte < p.byte {
                start_position_spec(m, b, q)
            } else {
                p
            },
            None => p,
        }
    }
}

/// Whether every step back from `p` to the start of the text is one that
/// `previous_position` accepts.
pub open spec fn start_position_ok(m: ColumnMetrics, b: Seq<u8>, p: Pos) -> bool
    decreases p.byte,
{
    if p.byte == 0 {
        true
    } else {
        previous_position_ok(m, b, p) && match previous_position_spec(m, b, p) {
            Some(q) => if q.byte < p.byte {
                start_position_ok(m, b, q)
            } else {
                true
            },
            None => true,
        }
    }
}

/// Whether every step of matching `pat` against the text from `start`,
/// reached at `end`, compares a slice of the pattern that lies within it
/// and on its character boundaries.
pub open spec fn after_str_ok(m: ColumnMetrics, b: Seq<u8>, pat: Seq<u8>, start: Pos, end: Pos) -> bool
    decreases b.len() - end.byte,
{
    next_position_ok(m, b, end) && match next_position_spec(m, b, end) {
        None => true,
        Some(adv) => {
            let k0 = end.byte - start.byte;
            let k1 = adv.byte - start.byte;
            &&& k1 <= pat.len()
            &&& is_char_boundary(pat, k1)
            &&& if end.byte < adv.byte <= b.len() && pat.subrange(k0, k1) =~= b.subrange(
                end.byte as int,
                adv.byte as int,
            ) && k1 < pat.len() {
                after_str_ok(m, b, pat, start, adv)
            } else {
                true
            }
        },
    }
}

/// Whether `f` accepted every character whose encoding starts in
/// `from..to`.
pub open spec fn all_accepted<F: Fn(char) -> bool>(f: F, b: Seq<u8>, from: int, to: int) -> bool {
    forall|j: int|
        from <= j < to && is_char_boundary(b, j) ==> f.ensures((char_at(b, j),), true)
}

/// Whether `f` rejected some character whose encoding starts in `from..to`.
pub open spec fn some_rejected<F: Fn(char) -> bool>(f: F, b: Seq<u8>, from: int, to: int) -> bool {
    exists|j: int|
        from <= j < to && is_char_boundary(b, j) && f.ensures((char_at(b, j),), false)
}

/// Whether matching stops at `p`: the text ends there, or `f` rejects a
/// character of the next step.
pub open spec fn match_stops_at<F: Fn(char) -> bool>(
    m: ColumnMetrics,
    b: Seq<u8>,
    f: F,
    p: Pos,
) -> bool {
    p.byte == b.len() || some_rejected(
        f,
        b,
        p.byte as int,
        next_position_spec(m, b, p)->0.byte as int,
    )
}

/// Whether a line break of the given kind starts at byte `i` of `b`.
fn line_break_at_bytes(le: LineEnding, b: &[u8], i: usize) -> (r: bool)
    ensures
        r == line_break_at(le, b@, i as int),
{
    let n = b.len();
    let r = match le {
        LineEnding::Lf => i < n && b[i] == 10,
        LineEnding::Cr => i < n && b[i] == 13,
        LineEnding::CrLf => i < n && n - i >= 2 && b[i] == 13 && b[i + 1] == 10,
    };
    proof {
        let pat = line_break_bytes(le);
        if r {
            assert(b@.subrange(i as int, i + pat.len()) =~= pat);
        }
        if line_break_at(le, b@, i as int) {
            assert(b@.subrange(i as int, i + pat.len())[0] == b@[i as int]);
            if pat.len() == 2 {
                assert(b@.subrange(i as int, i + pat.len())[1] == b@[i + 1]);
            }
        }
    }
    r
}

/// The character at a boundary is the first of the characters that the rest
/// of the text decodes to.
pub proof fn lemma_char_at_decoded(b: Seq<u8>, i: int)
    requires
        valid_utf8(b),
        is_char_boundary(b, i),
        0 <= i < b.len(),
    ensures
        char_at(b, i) as u32 == decode_first_scalar(suffix(b, i)),
        char_len_at(b, i) == utf8_len(char_at(b, i)),
        (char_at(b, i) == '\t') == (b[i] == 9u8),
        b[i] < 0x80 ==> char_len_at(b, i) == 1,
{
    let r = suffix(b, i);
    valid_utf8_split(b, i);
    let cs = decode_utf8(r);
    decode_utf8_encode_utf8(r);
    assert(encode_utf8(cs) == r);
    if cs.len() == 0 {
        assert(encode_utf8(cs) =~= Seq::<u8>::empty());
    }
    encode_utf8_first_scalar(cs);
    char_u32_cast(cs[0], decode_first_scalar(r));
    char_is_scalar(cs[0]);
    assert(r[0] == b[i]);
    let v = cs[0] as u32;
    assert(r[0] == encode_scalar(v)[0]);
    if has_width_1_encoding(v) {
        assert(r[0] == leading_byte_width_1(v));
        let x = r[0];
        assert((x == 9u8) == (v == 9u32)) by (bit_vector)
            requires
                0 <= v <= 0x7f,
                x == (v & 0x7f) as u8,
        ;
    } else {
        let x = r[0];
        if has_width_2_encoding(v) {
            assert(x != 9u8) by (bit_vector)
                requires
                    x == 0xC0 | ((v >> 6) & 0x1F) as u8,
            ;
        } else if has_width_3_encoding(v) {
            assert(x != 9u8) by (bit_vector)
                requires
                    x == 0xE0 | ((v >> 12) & 0x0F) as u8,
            ;
        } else {
            assert(x != 9u8) by (bit_vector)
                requires
                    x == 0xF0 | ((v >> 18) & 0x7) as u8,
            ;
        }
    }
}

/// Stepping over a line break or a character from a boundary lands on a
/// later boundary; with headroom, the step is one that does not overflow.
pub proof fn lemma_step(m: ColumnMetrics, b: Seq<u8>, base: Pos)
    requires
        valid_utf8(b),
        b.len() <= usize::MAX,
        is_char_boundary(b, base.byte as int),
        base.byte < b.len() || line_break_at(m.line_ending, b, base.byte as int),
    ensures
        next_position_spec(m, b, base) is Some,
        base.byte < next_position_spec(m, b, base)->0.byte <= b.len(),
        is_char_boundary(b, next_position_spec(m, b, base)->0.byte as int),
        (room(b, base) && (m.tab_width > 0 || b[base.byte as int] != 9u8)) ==> next_position_ok(
            m,
            b,
            base,
        ),
{
    let i = base.byte as int;
    lemma_char_extent(b, i);
    lemma_char_at_decoded(b, i);
    if line_break_at(m.line_ending, b, i) {
        assert(b[i] == line_break_bytes(m.line_ending)[0]);
        if m.line_ending == LineEnding::CrLf {
            assert(b[i + 1] == 10u8);
            if i + 1 < b.len() {
                is_char_boundary_iff_not_is_continuation_byte(b, i + 1);
            }
            lemma_char_extent(b, i + 1);
            lemma_char_at_decoded(b, i + 1);
        }
    }
}

/// Stepping forward from a position that the walk from `s` reached exactly
/// continues the walk.
pub proof fn lemma_walk_extend(m: ColumnMetrics, b: Seq<u8>, s: Pos, p: Pos)
    requires
        s.byte <= p.byte,
        p == walk_to(m, b, s, p.byte as int),
        next_position_spec(m, b, p) is Some,
        p.byte < next_position_spec(m, b, p)->0.byte <= b.len(),
    ensures
        walk_to(m, b, s, next_position_spec(m, b, p)->0.byte as int) == next_position_spec(
            m,
            b,
            p,
        )->0,
    decreases p.byte - s.byte,
{
    let q = next_position_spec(m, b, p)->0;
    if s.byte < p.byte {
        match next_position_spec(m, b, s) {
            Some(s1) => {
                if s.byte < s1.byte <= p.byte {
                    lemma_walk_extend(m, b, s1, p);
                    assert(walk_to(m, b, s, q.byte as int) == walk_to(m, b, s1, q.byte as int));
                }
            },
            None => {},
        }
    } else {
        assert(p == s);
        assert(walk_to(m, b, q, q.byte as int) == q);
    }
}

/// Whether `len` bytes of `a` from `ai` equal `len` bytes of `b` from `bi`.
fn bytes_range_eq(a: &[u8], ai: usize, b: &[u8], bi: usize, len: usize) -> (r: bool)
    requires
        ai + len <= a@.len(),
        bi + len <= b@.len(),
    ensures
        r == (a@.subrange(ai as int, ai + len) =~= b@.subrange(bi as int, bi + len)),
{
    let alen = a.len();
    let blen = b.len();
    let mut k: usize = 0;
    while k < len
        invariant
            alen == a@.len(),
            blen == b@.len(),
            ai + len <= a@.len(),
            bi + len <= b@.len(),
            k <= len,
            a@.subrange(ai as int, ai + k) =~= b@.subrange(bi as int, bi + k),
        decreases len - k,
    {
        if a[ai + k] != b[bi + k] {
            proof {
                assert(a@.subrange(ai as int, ai + len)[k as int] == a@[ai + k]);
                assert(b@.subrange(bi as int, bi + len)[k as int] == b@[bi + k]);
            }
            return false;
        }
        k = k + 1;
    }
    true
}

/// Whether `f` accepts every character whose encoding starts in
/// `from..to`, asking it about them in order until one is rejected.
fn chars_match<F: Fn(char) -> bool>(text: &str, from: usize, to: usize, f: &F) -> (r: bool)
    requires
        is_char_boundary(text.spec_bytes(), from as int),
        is_char_boundary(text.spec_bytes(), to as int),
        from <= to,
        forall|c: char| f.requires((c,)),
    ensures
        r ==> all_accepted(*f, text.spec_bytes(), from as int, to as int),
        !r ==> some_rejected(*f, text.spec_bytes(), from as int, to as int),
{
    let ghost b = text.spec_bytes();
    let n = text.as_bytes().len();
    proof {
        lemma_text_bounds(text);
        assert(to <= b.len()) by {
            reveal_with_fuel(is_char_boundary, 1);
        }
    }
    let mut k = from;
    while k < to
        invariant
            b == text.spec_bytes(),
            n == b.len(),
            valid_utf8(b),
            from <= k <= to <= b.len(),
            is_char_boundary(b, k as int),
            is_char_boundary(b, to as int),
            forall|c: char| f.requires((c,)),
            all_accepted(*f, b, from as int, k as int),
        decreases to - k,
    {
        proof {
            lemma_char_extent(b, k as int);
        }
        let (c, l) = char_at_byte(text, k);
        let ok = f(c);
        if !ok {
            return false;
        }
        proof {
            if k + l > to {
                assert(!is_char_boundary(b, to as int));
            }
        }
        k = k + l;
    }
    true
}

/// Returns the boundary of the last character before byte `i`, found by
/// scanning back over continuation bytes.
fn prev_char_start(text: &str, i: usize) -> (k: usize)
    requires
        0 < i,
        is_char_boundary(text.spec_bytes(), i as int),
    ensures
        is_prev_boundary(text.spec_bytes(), i as int, k as int),
        prev_boundary(text.spec_bytes(), i as int) == k,
        k + char_len_at(text.spec_bytes(), k as int) == i,
{
    let ghost b = text.spec_bytes();
    let bytes = text.as_bytes();
    proof {
        lemma_text_bounds(text);
        assert(i <= b.len()) by {
            reveal_with_fuel(is_char_boundary, 1);
        }
    }
    let mut k = i - 1;
    while k > 0 && bytes[k] >= 0x80 && bytes[k] <= 0xbf
        invariant
            b == text.spec_bytes(),
            bytes@ == b,
            valid_utf8(b),
            0 <= k < i <= b.len(),
            forall|j: int| k < j < i ==> is_continuation_byte(#[trigger] b[j]),
        decreases k,
    {
        k = k - 1;
    }
    proof {
        is_char_boundary_start_end_of_seq(b);
        if k > 0 {
            is_char_boundary_iff_not_is_continuation_byte(b, k as int);
        }
        assert forall|j: int| k < j < i implies !is_char_boundary(b, j) by {
            is_char_boundary_iff_not_is_continuation_byte(b, j);
        }
        lemma_prev_boundary(b, i as int, k as int);
    }
    k
}

/// Whether no tab byte lies in `from..to`.
fn no_tab_between(b: &[u8], from: usize, to: usize) -> (r: bool)
    requires
        from <= to <= b@.len(),
    ensures
        r == forall|x: int| from <= x < to ==> b@[x] != 9u8,
{
    let mut j = from;
    while j < to
        invariant
            from <= j <= to <= b@.len(),
            forall|x: int| from <= x < j ==> b@[x] != 9u8,
        decreases to - j,
    {
        if b[j] == 9 {
            return false;
        }
        j = j + 1;
    }
    true
}

/// Returns the character whose encoding starts at byte `i` of `text`,
/// together with the length of that encoding.
pub fn char_at_byte(text: &str, i: usize) -> (r: (char, usize))
    requires
        is_char_boundary(text.spec_bytes(), i as int),
        i < text.spec_bytes().len(),
    ensures
        r.0 == char_at(text.spec_bytes(), i as int),
        r.1 == char_len_at(text.spec_bytes(), i as int),
        r.1 == utf8_len(r.0),
        1 <= r.1 <= 4,
        i + r.1 <= text.spec_bytes().len(),
        is_char_boundary(text.spec_bytes(), i + r.1),
{
    broadcast use vstd::string::group_string_axioms;

    proof {
        lemma_text_bounds(text);
        lemma_char_extent(text.spec_bytes(), i as int);
    }
    let (_, rest) = text.split_at(i);
    let ghost rb = suffix(text.spec_bytes(), i as int);
    assert(rest.spec_bytes() =~= rb);
    proof {
        if rest@.len() == 0 {
            assert(encode_utf8(rest@) =~= Seq::<u8>::empty());
        }
    }
    let mut it = rest.chars();
    let c = it.next();
    match c {
        Some(c) => {
            proof {
                encode_utf8_first_scalar(rest@);
                char_u32_cast(rest@[0], decode_first_scalar(rb));
            }
            let n = char_len_utf8(c);
            (c, n)
        },
        None => {
            proof {
                assert(false);
            }
            ('\0', 1)
        },
    }
}

} // verus!
