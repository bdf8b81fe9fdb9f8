//! Character positioning within a source text.
use vstd::prelude::*;

verus! {

/// A position within the source text identified by line and column numbers.
#[derive(Debug, Clone, Copy, PartialEq, Eq, Hash, PartialOrd, Ord, Structural)]
pub struct Page {
    /// The line number.
    pub line: usize,
    /// The column number.
    pub column: usize,
}

/// A position within the source text: a byte offset together with its line
/// and column.
#[derive(Debug, Clone, Copy, PartialEq, Eq, Hash, PartialOrd, Ord, Structural)]
pub struct Pos {
    /// The byte position.
    pub byte: usize,
    /// The page position.
    pub page: Page,
}

/// Lexicographic `<` on pages (line first, then column), as the derived
/// `Ord` orders them.
pub open spec fn page_lt(a: Page, b: Page) -> bool {
    a.line < b.line || (a.line == b.line && a.column < b.column)
}

/// Lexicographic `<=` on pages.
pub open spec fn page_le(a: Page, b: Page) -> bool {
    page_lt(a, b) || a == b
}

/// Lexicographic `<` on positions (byte first, then page), as the derived
/// `Ord` orders them.
pub open spec fn pos_lt(a: Pos, b: Pos) -> bool {
    a.byte < b.byte || (a.byte == b.byte && page_lt(a.page, b.page))
}

/// Lexicographic `<=` on positions.
pub open spec fn pos_le(a: Pos, b: Pos) -> bool {
    pos_lt(a, b) || a == b
}

/// The page reached by moving from `a` by the relative page `b`: lines add,
/// and the column restarts at `b`'s column when `b` starts or crosses a line
/// (so a relative page at column zero counts as a line start).
pub open spec fn page_shifted_spec(a: Page, b: Page) -> Page {
    Page {
        line: (a.line + b.line) as usize,
        column: if b.column == 0 || b.line > 0 { b.column } else { (a.column + b.column) as usize },
    }
}

/// Whether shifting `a` by `b` stays within `usize`.
pub open spec fn page_shift_fits(a: Page, b: Page) -> bool {
    &&& a.line + b.line <= usize::MAX
    &&& (b.column == 0 || b.line > 0 || a.column + b.column <= usize::MAX)
}

/// The position reached by moving from `a` by the relative position `b`.
pub open spec fn pos_shifted_spec(a: Pos, b: Pos) -> Pos {
    Pos { byte: (a.byte + b.byte) as usize, page: page_shifted_spec(a.page, b.page) }
}

/// Whether shifting `a` by `b` stays within `usize`.
pub open spec fn pos_shift_fits(a: Pos, b: Pos) -> bool {
    a.byte + b.byte <= usize::MAX && page_shift_fits(a.page, b.page)
}

impl Page {
    /// Returns the start page.
    pub fn zero() -> (r: Page)
        ensures
            r.line == 0 && r.column == 0,
    {
        Page { line: 0, column: 0 }
    }

    /// Returns true if the page position is the start of a new line.
    pub fn is_line_start(self) -> (r: bool)
        ensures
            r == (self.column == 0),
    {
        self.column == 0
    }

    /// Returns the page reached by moving by the relative page `other`.
    pub fn shifted(self, other: Page) -> (r: Page)
        requires
            page_shift_fits(self, other),
        ensures
            r == page_shifted_spec(self, other),
    {
        Page {
            line: self.line + other.line,
            column: if other.is_line_start() || other.line > 0 {
                other.column
            } else {
                self.column + other.column
            },
        }
    }

    /// Moves the page by the relative page `other`.
    pub fn shift(&mut self, other: Page)
        requires
            page_shift_fits(*old(self), other),
        ensures
            *final(self) == page_shifted_spec(*old(self), other),
    {
        self.line = self.line + other.line;
        if other.is_line_start() || other.line > 0 {
            self.column = other.column;
        } else {
            self.column = self.column + other.column;
        }
    }

    /// Returns true if `self` is ordered before `other`.
    pub fn is_before(self, other: Page) -> (r: bool)
        ensures
            r == page_lt(self, other),
    {
        self.line < other.line || (self.line == other.line && self.column < other.column)
    }

    /// Returns true if `self` is ordered before or equal to `other`.
    pub fn is_at_or_before(self, other: Page) -> (r: bool)
        ensures
            r == page_le(self, other),
    {
        self.is_before(other) || (self.line == other.line && self.column == other.column)
    }
}

impl Default for Page {
    fn default() -> (r: Page)
        ensures
            r == (Page { line: 0, column: 0 }),
    {
        Page { line: 0, column: 0 }
    }
}

impl Pos {
    /// Returns the initial position.
    pub fn zero() -> (r: Pos)
        ensures
            r == Pos::new_spec(0, 0, 0),
    {
        Pos::new(0, 0, 0)
    }

    /// The position with the given byte, line and column.
    pub open spec fn new_spec(byte: usize, line: usize, column: usize) -> Pos {
        Pos { byte, page: Page { line, column } }
    }

    /// Creates a `Pos` with the given byte, line, and column.
    pub fn new(byte: usize, line: usize, column: usize) -> (r: Pos)
        ensures
            r == Pos::new_spec(byte, line, column),
    {
        Pos { byte, page: Page { line, column } }
    }

    /// Returns true if the position is the zero position.
    pub fn is_zero(self) -> (r: bool)
        ensures
            r == (self == Pos::new_spec(0, 0, 0)),
    {
        self.byte == 0 && self.page.line == 0 && self.page.column == 0
    }

    /// Returns true if the position is the start of a new line.
    pub fn is_line_start(self) -> (r: bool)
        ensures
            r == (self.page.column == 0),
    {
        self.page.is_line_start()
    }

    /// Returns the position reached by moving by the relative position
    /// `other`.
    pub fn shifted(self, other: Pos) -> (r: Pos)
        requires
            pos_shift_fits(self, other),
        ensures
            r == pos_shifted_spec(self, other),
    {
        Pos { byte: self.byte + other.byte, page: self.page.shifted(other.page) }
    }

    /// Moves the position by the relative position `other`.
    pub fn shift(&mut self, other: Pos)
        requires
            pos_shift_fits(*old(self), other),
        ensures
            *final(self) == pos_shifted_spec(*old(self), other),
    {
        self.byte = self.byte + other.byte;
        self.page.shift(other.page);
    }

    /// Returns true if `self` is ordered before `other`.
    pub fn is_before(self, other: Pos) -> (r: bool)
        ensures
            r == pos_lt(self, other),
    {
        self.byte < other.byte || (self.byte == other.byte && self.page.is_before(other.page))
    }

    /// Returns true if `self` is ordered before or equal to `other`.
    pub fn is_at_or_before(self, other: Pos) -> (r: bool)
        ensures
            r == pos_le(self, other),
    {
        self.is_before(other) || (self.byte == other.byte && self.page.line == other.page.line
            && self.page.column == other.page.column)
    }
}

impl Default for Pos {
    fn default() -> (r: Pos)
        ensures
            r == Pos::new_spec(0, 0, 0),
    {
        Pos::new(0, 0, 0)
    }
}

/// Shifting is associative, except where the middle shift is at column
/// zero on the same line: such a shift counts as a line start and resets
/// the column, so it does not compose with a preceding column.
pub proof fn lemma_page_shift_assoc(a: Page, b: Page, c: Page)
    requires
        b.line > 0 || b.column > 0 || a.column == 0,
        a.line + b.line + c.line <= usize::MAX,
        a.column + b.column + c.column <= usize::MAX,
    ensures
        page_shifted_spec(page_shifted_spec(a, b), c) == page_shifted_spec(
            a,
            page_shifted_spec(b, c),
        ),
{
}

/// `<=` on positions is a total order.
pub proof fn lemma_pos_le_total_order(a: Pos, b: Pos, c: Pos)
    ensures
        pos_le(a, a),
        pos_le(a, b) || pos_le(b, a),
        pos_le(a, b) && pos_le(b, a) ==> a == b,
        pos_le(a, b) && pos_le(b, c) ==> pos_le(a, c),
{
}

} // verus!
