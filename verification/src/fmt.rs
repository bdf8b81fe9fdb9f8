//! Text building: decimal numbers, positions and spans written as text.
use vstd::prelude::*;
use crate::position::Page;
use crate::position::Pos;
use crate::span::ByteSpan;
use crate::span::PageSpan;
use crate::span::Span;

verus! {

/// Appends a string slice to a string.
pub(crate) fn push_str(s: &mut String, t: &str)
    ensures
        final(s)@ == old(s)@ + t@,
{
    s.append(t)
}

/// Appends a character to a string (`String::push`). Where the string's
/// capacity would overflow or memory runs out, `String::push` does not
/// return; that case is not stated.
#[verifier::external_body]
pub(crate) fn push_char(s: &mut String, c: char)
    ensures
        final(s)@ == old(s)@.push(c),
{
    s.push(c)
}

/// The decimal digit for `d < 10`.
pub open spec fn digit(d: nat) -> char {
    (('0' as u32) + d) as char
}

/// The decimal representation of `n`, without leading zeros.
pub open spec fn decimal(n: nat) -> Seq<char>
    decreases n,
{
    if n < 10 {
        seq![digit(n)]
    } else {
        decimal(n / 10).push(digit(n % 10))
    }
}

/// `n` copies of `c`.
pub open spec fn repeat_char(c: char, n: nat) -> Seq<char>
    decreases n,
{
    if n == 0 {
        Seq::empty()
    } else {
        repeat_char(c, (n - 1) as nat).push(c)
    }
}

/// A page written as `line:column`.
pub open spec fn page_text(p: Page) -> Seq<char> {
    decimal(p.line as nat) + seq![':'] + decimal(p.column as nat)
}

/// A position written as `line:column, byte b`.
pub open spec fn pos_text(p: Pos) -> Seq<char> {
    page_text(p.page) + ", byte "@ + decimal(p.byte as nat)
}

/// A byte range written as `start-end`, or as `start` where it is empty.
pub open spec fn byte_span_text(b: ByteSpan) -> Seq<char> {
    if b.start == b.end {
        decimal(b.start as nat)
    } else {
        decimal(b.start as nat) + seq!['-'] + decimal(b.end as nat)
    }
}

/// A page range written as `start-end`, or as `start` where it is empty.
pub open spec fn page_span_text(p: PageSpan) -> Seq<char> {
    if p.start == p.end {
        page_text(p.start)
    } else {
        page_text(p.start) + seq!['-'] + page_text(p.end)
    }
}

/// A span written as `page span, byte span`: an empty range of bytes or
/// pages is written as its start alone.
pub open spec fn span_text(s: Span) -> Seq<char> {
    let pages = if s.page.start == s.page.end {
        page_text(s.page.start)
    } else {
        page_text(s.page.start) + seq!['-'] + page_text(s.page.end)
    };
    if s.byte.start == s.byte.end {
        pages + ", byte "@ + decimal(s.byte.start as nat)
    } else {
        pages + ", bytes "@ + decimal(s.byte.start as nat) + seq!['-'] + decimal(
            s.byte.end as nat,
        )
    }
}

/// Returns the decimal digit for `d < 10`.
fn digit_char(d: usize) -> (c: char)
    requires
        d < 10,
    ensures
        c == digit(d as nat),
{
    if d == 0 {
        '0'
    } else if d == 1 {
        '1'
    } else if d == 2 {
        '2'
    } else if d == 3 {
        '3'
    } else if d == 4 {
        '4'
    } else if d == 5 {
        '5'
    } else if d == 6 {
        '6'
    } else if d == 7 {
        '7'
    } else if d == 8 {
        '8'
    } else {
        '9'
    }
}

/// Appends the decimal representation of `n`.
pub fn push_decimal(s: &mut String, n: usize)
    ensures
        final(s)@ == old(s)@ + decimal(n as nat),
    decreases n,
{
    if n < 10 {
        push_char(s, digit_char(n));
        assert(decimal(n as nat) =~= seq![digit(n as nat)]);
    } else {
        push_decimal(s, n / 10);
        push_char(s, digit_char(n % 10));
        assert(old(s)@ + decimal(n as nat) =~= old(s)@ + decimal((n / 10) as nat) + seq![
            digit((n % 10) as nat),
        ]);
    }
}

/// Returns the decimal representation of `n`.
pub fn decimal_string(n: usize) -> (r: String)
    ensures
        r@ == decimal(n as nat),
{
    let mut s = String::new();
    push_decimal(&mut s, n);
    assert(s@ =~= decimal(n as nat));
    s
}

/// Appends `n` copies of `c`.
pub fn push_repeat(s: &mut String, c: char, n: usize)
    ensures
        final(s)@ == old(s)@ + repeat_char(c, n as nat),
{
    let mut i: usize = 0;
    while i < n
        invariant
            i <= n,
            s@ == old(s)@ + repeat_char(c, i as nat),
        decreases n - i,
    {
        push_char(s, c);
        i = i + 1;
        assert(s@ =~= old(s)@ + repeat_char(c, i as nat));
    }
}

/// Appends `line:column`.
pub fn push_page(s: &mut String, p: Page)
    ensures
        final(s)@ == old(s)@ + page_text(p),
{
    push_decimal(s, p.line);
    push_char(s, ':');
    push_decimal(s, p.column);
    assert(s@ =~= old(s)@ + page_text(p));
}

impl Page {
    /// Returns the page written as `line:column`.
    pub fn to_string(&self) -> (r: String)
        ensures
            r@ == page_text(*self),
    {
        let mut s = String::new();
        push_page(&mut s, *self);
        assert(s@ =~= page_text(*self));
        s
    }
}

impl Pos {
    /// Returns the position written as `line:column, byte b`.
    pub fn to_string(&self) -> (r: String)
        ensures
            r@ == pos_text(*self),
    {
        let mut s = String::new();
        push_page(&mut s, self.page);
        proof {
            reveal_strlit(", byte ");
        }
        push_str(&mut s, ", byte ");
        push_decimal(&mut s, self.byte);
        assert(s@ =~= pos_text(*self));
        s
    }
}

/// Appends the span written as `page span, byte span`.
pub fn push_span(s: &mut String, sp: Span)
    ensures
        final(s)@ == old(s)@ + span_text(sp),
{
    push_page(s, sp.page.start);
    if !sp.page.is_empty() {
        push_char(s, '-');
        push_page(s, sp.page.end);
    }
    if sp.byte.is_empty() {
        push_str(s, ", byte ");
        push_decimal(s, sp.byte.start);
    } else {
        push_str(s, ", bytes ");
        push_decimal(s, sp.byte.start);
        push_char(s, '-');
        push_decimal(s, sp.byte.end);
    }
    assert(s@ =~= old(s)@ + span_text(sp));
}

impl Span {
    /// Returns the span written as `page span, byte span`.
    pub fn to_string(&self) -> (r: String)
        ensures
            r@ == span_text(*self),
    {
        let mut s = String::new();
        push_span(&mut s, *self);
        assert(s@ =~= span_text(*self));
        s
    }
}

impl ByteSpan {
    /// Returns the byte range written as `start-end`, or as `start` where it
    /// is empty.
    pub fn to_string(&self) -> (r: String)
        ensures
            r@ == byte_span_text(*self),
    {
        let mut s = String::new();
        push_decimal(&mut s, self.start);
        if !self.is_empty() {
            push_char(&mut s, '-');
            push_decimal(&mut s, self.end);
        }
        assert(s@ =~= byte_span_text(*self));
        s
    }
}

impl PageSpan {
    /// Returns the page range written as `start-end`, or as `start` where
    /// it is empty.
    pub fn to_string(&self) -> (r: String)
        ensures
            r@ == page_span_text(*self),
    {
        let mut s = String::new();
        push_page(&mut s, self.start);
        if !self.is_empty() {
            push_char(&mut s, '-');
            push_page(&mut s, self.end);
        }
        assert(s@ =~= page_span_text(*self));
        s
    }
}

} // verus!
