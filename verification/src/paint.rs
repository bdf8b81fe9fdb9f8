//! Painting text in terminal colors with the `colored` crate.
use vstd::prelude::*;
use colored::Colorize;
use crate::message::MessageColor;
use crate::fmt::repeat_char;
use crate::fmt::decimal;
use crate::fmt::digit;
use crate::fmt::push_char;
use crate::fmt::push_repeat;
use crate::fmt::push_str;

verus! {

/// The parameter of the terminal escape sequence that selects the
/// foreground color for a message color.
pub open spec fn color_code(c: MessageColor) -> Seq<char> {
    match c {
        MessageColor::BrightWhite => seq!['9', '7'],
        MessageColor::BrightRed => seq!['9', '1'],
        MessageColor::BrightYellow => seq!['9', '3'],
        MessageColor::BrightBlue => seq!['9', '4'],
        MessageColor::BrightGreen => seq!['9', '2'],
    }
}

/// The terminal escape sequence `ESC [ params m`.
pub open spec fn escape(params: Seq<char>) -> Seq<char> {
    seq!['\x1b', '['] + params + seq!['m']
}

/// The text right-aligned to `width` characters: spaces in front where it
/// is shorter.
pub open spec fn right_aligned(text: Seq<char>, width: nat) -> Seq<char> {
    if text.len() < width {
        repeat_char(' ', (width - text.len()) as nat) + text
    } else {
        text
    }
}

/// Whether `part` occurs as a contiguous piece of `whole`.
pub open spec fn occurs_in(part: Seq<char>, whole: Seq<char>) -> bool {
    exists|i: int| 0 <= i && i + part.len() <= whole.len() && #[trigger] whole.subrange(i, i + part.len()) == part
}

/// The terminal reset sequence `ESC [ 0 m`.
pub open spec fn reset_code() -> Seq<char> {
    seq!['\x1b', '[', '0', 'm']
}

/// Whether `text` holds the terminal reset sequence.
pub open spec fn holds_reset(text: Seq<char>) -> bool {
    occurs_in(reset_code(), text)
}

/// Whether `r` is `text` right-aligned to `width`, either plain or
/// preceded by the escape sequence with `params` and followed by the reset
/// sequence.
pub open spec fn painted_as(text: Seq<char>, width: nat, params: Seq<char>, r: Seq<char>) -> bool {
    ||| r == right_aligned(text, width)
    ||| r == escape(params) + right_aligned(text, width) + reset_code()
}

/// `Colorize::color` with the `colored` color of `color` (one variant for
/// each), followed by `Display`, right-aligned to `width` columns. Whether
/// `colored` paints at all depends on its override, the environment and
/// the terminal: the `Display` of the colored string writes either the
/// padded text alone, or the escape sequence of the color, the padded text
/// and the reset sequence. Where the text itself holds a reset sequence,
/// `colored` rewrites it, and the contract claims nothing. `format!`
/// refuses a width above `u16::MAX`.
#[verifier::external_body]
fn painted(text: &str, color: MessageColor, width: usize) -> (r: String)
    requires
        width <= 65535,
    ensures
        !holds_reset(text@) ==> painted_as(text@, width as nat, color_code(color), r@),
{
    let c = match color {
        MessageColor::BrightWhite => colored::Color::BrightWhite,
        MessageColor::BrightRed => colored::Color::BrightRed,
        MessageColor::BrightYellow => colored::Color::BrightYellow,
        MessageColor::BrightBlue => colored::Color::BrightBlue,
        MessageColor::BrightGreen => colored::Color::BrightGreen,
    };
    format!("{:>width$}", text.color(c), width = width)
}

/// `Colorize::color` and `Colorize::bold` followed by `Display`,
/// right-aligned to `width` columns: as `painted`, with the bold style
/// (`1`) in front of the color in the escape sequence.
#[verifier::external_body]
fn painted_bold(text: &str, color: MessageColor, width: usize) -> (r: String)
    requires
        width <= 65535,
    ensures
        !holds_reset(text@) ==> painted_as(text@, width as nat, seq!['1', ';'] + color_code(color), r@),
{
    let c = match color {
        MessageColor::BrightWhite => colored::Color::BrightWhite,
        MessageColor::BrightRed => colored::Color::BrightRed,
        MessageColor::BrightYellow => colored::Color::BrightYellow,
        MessageColor::BrightBlue => colored::Color::BrightBlue,
        MessageColor::BrightGreen => colored::Color::BrightGreen,
    };
    format!("{:>width$}", text.color(c).bold(), width = width)
}

/// The right-aligned text occurs in either form of its painting.
proof fn lemma_painted_holds_text(text: Seq<char>, width: nat, params: Seq<char>, r: Seq<char>)
    requires
        painted_as(text, width, params, r),
    ensures
        occurs_in(right_aligned(text, width), r),
{
    let t = right_aligned(text, width);
    let i: int = if r == t {
        0
    } else {
        escape(params).len() as int
    };
    assert(r.subrange(i, i + t.len()) =~= t);
    assert(0 <= i && i + t.len() <= r.len() && r.subrange(i, i + t.len()) == t);
}

/// Returns the text painted in the color, right-aligned to `width` columns:
/// either plain or between the color's escape sequence and the reset
/// sequence, unless the text holds a reset sequence.
pub fn paint(text: &str, color: MessageColor, width: usize) -> (r: String)
    requires
        width <= 65535,
    ensures
        !holds_reset(text@) ==> painted_as(text@, width as nat, color_code(color), r@),
        !holds_reset(text@) ==> occurs_in(right_aligned(text@, width as nat), r@),
{
    let r = painted(text, color, width);
    proof {
        if !holds_reset(text@) {
            lemma_painted_holds_text(text@, width as nat, color_code(color), r@);
        }
    }
    r
}

/// Returns the text painted bold in the color, right-aligned to `width`
/// columns: either plain or between the bold color's escape sequence and
/// the reset sequence, unless the text holds a reset sequence.
pub fn paint_bold(text: &str, color: MessageColor, width: usize) -> (r: String)
    requires
        width <= 65535,
    ensures
        !holds_reset(text@) ==> painted_as(text@, width as nat, seq!['1', ';'] + color_code(color), r@),
        !holds_reset(text@) ==> occurs_in(right_aligned(text@, width as nat), r@),
{
    let r = painted_bold(text, color, width);
    proof {
        if !holds_reset(text@) {
            lemma_painted_holds_text(text@, width as nat, seq!['1', ';'] + color_code(color), r@);
        }
    }
    r
}

/// Whether `f` maps each character of `small` to an equal character of
/// `big`, at increasing places.
pub open spec fn places_ok(small: Seq<char>, big: Seq<char>, f: Seq<int>) -> bool {
    &&& f.len() == small.len()
    &&& forall|i: int| 0 <= i < f.len() ==> 0 <= #[trigger] f[i] < big.len() && big[f[i]] == small[i]
    &&& forall|i: int, j: int| 0 <= i < j < f.len() ==> #[trigger] f[i] < #[trigger] f[j]
}

/// Whether the characters of `small` occur in `big` in the same order,
/// other characters possibly coming between them.
pub open spec fn embeds(small: Seq<char>, big: Seq<char>) -> bool {
    exists|f: Seq<int>| #[trigger] places_ok(small, big, f)
}

/// Whether writing turned `before` into `after` by appending text in which
/// the characters of `plain` occur in order: what was there stays in
/// front.
pub open spec fn writes(before: Seq<char>, after: Seq<char>, plain: Seq<char>) -> bool {
    &&& before.len() <= after.len()
    &&& after.subrange(0, before.len() as int) == before
    &&& embeds(plain, after.subrange(before.len() as int, after.len() as int))
}

/// Every text embeds in itself.
pub proof fn lemma_embeds_self(a: Seq<char>)
    ensures
        embeds(a, a),
{
    let f = Seq::new(a.len(), |i: int| i);
    assert(places_ok(a, a, f));
}

/// A piece that occurs in a text embeds in it.
pub proof fn lemma_embeds_occurs(p: Seq<char>, q: Seq<char>)
    requires
        occurs_in(p, q),
    ensures
        embeds(p, q),
{
    let i = choose|i: int| 0 <= i && i + p.len() <= q.len() && #[trigger] q.subrange(i, i + p.len()) == p;
    let f = Seq::new(p.len(), |k: int| i + k);
    assert forall|k: int| 0 <= k < f.len() implies 0 <= #[trigger] f[k] < q.len() && q[f[k]] == p[k] by {
        assert(q.subrange(i, i + p.len())[k] == q[i + k]);
    }
    assert(places_ok(p, q, f));
}

/// Texts that embed in two texts, one after the other, embed in the two
/// texts one after the other.
pub proof fn lemma_embeds_concat(a: Seq<char>, x: Seq<char>, b: Seq<char>, y: Seq<char>)
    requires
        embeds(a, x),
        embeds(b, y),
    ensures
        embeds(a + b, x + y),
{
    let f = choose|f: Seq<int>| places_ok(a, x, f);
    let g = choose|g: Seq<int>| places_ok(b, y, g);
    let h = Seq::new(a.len() + b.len(), |i: int| if i < a.len() { f[i] } else { x.len() + g[i - a.len()] });
    let ab = a + b;
    let xy = x + y;
    assert forall|i: int| 0 <= i < h.len() implies 0 <= #[trigger] h[i] < xy.len() && xy[h[i]] == ab[i] by {
        if i < a.len() {
            assert(xy[f[i]] == x[f[i]]);
        } else {
            assert(xy[x.len() + g[i - a.len()]] == y[g[i - a.len()]]);
        }
    }
    assert forall|i: int, j: int| 0 <= i < j < h.len() implies #[trigger] h[i] < #[trigger] h[j] by {
        if j < a.len() {
        } else if i < a.len() {
        } else {
            assert(g[i - a.len()] < g[j - a.len()]);
        }
    }
    assert(places_ok(ab, xy, h));
}

/// The empty text embeds anywhere.
pub proof fn lemma_embeds_empty(x: Seq<char>)
    ensures
        embeds(Seq::empty(), x),
{
    let f = Seq::<int>::empty();
    assert(places_ok(Seq::empty(), x, f));
}

/// Writing one piece and then another writes the two pieces.
pub proof fn lemma_writes_chain(a: Seq<char>, b: Seq<char>, c: Seq<char>, p: Seq<char>, q: Seq<char>)
    requires
        writes(a, b, p),
        writes(b, c, q),
    ensures
        writes(a, c, p + q),
{
    assert(c.subrange(0, a.len() as int) =~= b.subrange(0, a.len() as int));
    assert(c.subrange(a.len() as int, c.len() as int) =~= b.subrange(a.len() as int, b.len() as int)
        + c.subrange(b.len() as int, c.len() as int));
    lemma_embeds_concat(
        p,
        b.subrange(a.len() as int, b.len() as int),
        q,
        c.subrange(b.len() as int, c.len() as int),
    );
}

/// Appending a text writes it.
pub proof fn lemma_writes_plain(a: Seq<char>, t: Seq<char>)
    ensures
        writes(a, a + t, t),
{
    assert((a + t).subrange(0, a.len() as int) =~= a);
    assert((a + t).subrange(a.len() as int, (a + t).len() as int) =~= t);
    lemma_embeds_self(t);
}

/// Appending a text in which a piece occurs writes the piece.
pub proof fn lemma_writes_painted(a: Seq<char>, q: Seq<char>, p: Seq<char>)
    requires
        occurs_in(p, q),
    ensures
        writes(a, a + q, p),
{
    assert((a + q).subrange(0, a.len() as int) =~= a);
    assert((a + q).subrange(a.len() as int, (a + q).len() as int) =~= q);
    lemma_embeds_occurs(p, q);
}

/// Appending any text writes nothing in particular.
pub proof fn lemma_writes_extra(a: Seq<char>, t: Seq<char>)
    ensures
        writes(a, a + t, Seq::empty()),
{
    assert((a + t).subrange(0, a.len() as int) =~= a);
    lemma_embeds_empty((a + t).subrange(a.len() as int, (a + t).len() as int));
}

/// Writing nothing writes the empty text.
pub proof fn lemma_writes_nothing(a: Seq<char>)
    ensures
        writes(a, a, Seq::empty()),
{
    assert(a.subrange(0, a.len() as int) =~= a);
    lemma_embeds_empty(a.subrange(a.len() as int, a.len() as int));
}

/// A text without an escape character holds no reset sequence.
pub proof fn lemma_no_reset(t: Seq<char>)
    requires
        forall|i: int| 0 <= i < t.len() ==> t[i] != '\x1b',
    ensures
        !holds_reset(t),
{
    let r = seq!['\x1b', '[', '0', 'm'];
    if holds_reset(t) {
        let i = choose|i: int| 0 <= i && i + r.len() <= t.len() && #[trigger] t.subrange(i, i + r.len()) == r;
        assert(t.subrange(i, i + r.len())[0] == t[i]);
    }
}

/// Right-aligning to width zero changes nothing.
pub proof fn lemma_right_aligned_zero(t: Seq<char>)
    ensures
        right_aligned(t, 0) == t,
{
}

/// A text shorter than a reset sequence holds none.
pub proof fn lemma_short_no_reset(t: Seq<char>)
    requires
        t.len() < 4,
    ensures
        !holds_reset(t),
{
}

/// Appends `t`; the text appended is `t` itself.
pub(crate) fn put_str(out: &mut String, t: &str)
    ensures
        final(out)@ == old(out)@ + t@,
        writes(old(out)@, final(out)@, t@),
{
    push_str(out, t);
    proof {
        lemma_writes_plain(old(out)@, t@);
    }
}

/// Appends `c`; the text appended is `c` itself.
pub(crate) fn put_char(out: &mut String, c: char)
    ensures
        final(out)@ == old(out)@.push(c),
        writes(old(out)@, final(out)@, seq![c]),
{
    push_char(out, c);
    proof {
        assert(old(out)@.push(c) =~= old(out)@ + seq![c]);
        lemma_writes_plain(old(out)@, seq![c]);
    }
}

/// Appends `n` copies of `c`.
pub(crate) fn put_repeat(out: &mut String, c: char, n: usize)
    ensures
        final(out)@ == old(out)@ + repeat_char(c, n as nat),
        writes(old(out)@, final(out)@, repeat_char(c, n as nat)),
{
    push_repeat(out, c, n);
    proof {
        lemma_writes_plain(old(out)@, repeat_char(c, n as nat));
    }
}

/// Appends the text painted in the color, right-aligned to `width`
/// columns: the right-aligned text is written unless the text holds a
/// reset sequence.
pub(crate) fn put_painted(out: &mut String, text: &str, color: MessageColor, width: usize)
    requires
        width <= 65535,
    ensures
        old(out)@.len() <= final(out)@.len(),
        final(out)@.subrange(0, old(out)@.len() as int) == old(out)@,
        !holds_reset(text@) ==> writes(old(out)@, final(out)@, right_aligned(text@, width as nat)),
{
    let p = paint(text, color, width);
    push_str(out, p.as_str());
    proof {
        assert(final(out)@.subrange(0, old(out)@.len() as int) =~= old(out)@);
        if !holds_reset(text@) {
            lemma_writes_painted(old(out)@, p@, right_aligned(text@, width as nat));
        }
    }
}

/// Appends the text painted bold in the color, right-aligned to `width`
/// columns: the right-aligned text is written unless the text holds a
/// reset sequence.
pub(crate) fn put_painted_bold(out: &mut String, text: &str, color: MessageColor, width: usize)
    requires
        width <= 65535,
    ensures
        old(out)@.len() <= final(out)@.len(),
        final(out)@.subrange(0, old(out)@.len() as int) == old(out)@,
        !holds_reset(text@) ==> writes(old(out)@, final(out)@, right_aligned(text@, width as nat)),
{
    let p = paint_bold(text, color, width);
    push_str(out, p.as_str());
    proof {
        assert(final(out)@.subrange(0, old(out)@.len() as int) =~= old(out)@);
        if !holds_reset(text@) {
            lemma_writes_painted(old(out)@, p@, right_aligned(text@, width as nat));
        }
    }
}

/// The decimal digits of a number hold no escape character, and so no
/// reset sequence.
pub proof fn lemma_decimal_no_reset(n: nat)
    ensures
        forall|i: int| 0 <= i < decimal(n).len() ==> decimal(n)[i] != '\x1b',
        !holds_reset(decimal(n)),
    decreases n,
{
    if n >= 10 {
        lemma_decimal_no_reset(n / 10);
    }
    let d = n % 10;
    assert(digit(d) as u32 == 48 + d);
    lemma_no_reset(decimal(n));
}

} // verus!
