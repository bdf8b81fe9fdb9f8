//! Writing code displays: a header, then each span of source text with its
//! line numbers, highlight risers and messages, then the notes.
//!
//! Without color, what is written is stated exactly. With color, pieces
//! are painted by the `colored` crate, whose escapes depend on the
//! terminal: what is stated is that the text written without color occurs,
//! character by character and in order, in what is appended, and that what
//! was there before stays in front.
use vstd::prelude::*;
use vstd::utf8::*;
use vstd::string::StringSliceAdditionalSpecFns;
use crate::display::CodeDisplay;
use crate::display::SpanDisplay;
use crate::fmt::decimal;
use crate::fmt::decimal_string;
use crate::fmt::push_char;
use crate::fmt::push_repeat;
use crate::fmt::push_span;
use crate::fmt::push_str;
use crate::fmt::repeat_char;
use crate::fmt::span_text;
use crate::highlight::Highlight;
use crate::highlight::RiserState;
use crate::message::MessageColor;
use crate::message::MessageType;
use crate::message::label_text;
use crate::metrics::lemma_text_bounds;
use crate::metrics::lemma_line_end_keeps_line;
use crate::metrics::line_end_spec;
use crate::metrics::lemma_line_end_stops;
use crate::metrics::next_position_spec;
use crate::note::Note;
use crate::paint::embeds;
use crate::paint::holds_reset;
use crate::paint::lemma_decimal_no_reset;
use crate::paint::lemma_no_reset;
use crate::paint::lemma_short_no_reset;
use crate::paint::lemma_writes_chain;
use crate::paint::lemma_writes_extra;
use crate::paint::lemma_writes_nothing;
use crate::paint::lemma_writes_plain;
use crate::paint::put_char;
use crate::paint::put_painted_bold;
use crate::paint::put_repeat;
use crate::paint::put_str;
use crate::paint::writes;
use crate::source::SourceText;
use crate::source::substring;
use crate::span::Span;
use crate::span::SplitLines;

verus! {

/// `v` right-aligned to `w` columns.
pub open spec fn pad_left(v: Seq<char>, w: nat) -> Seq<char> {
    repeat_char(' ', if v.len() < w { (w - v.len()) as nat } else { 0 }) + v
}

/// The line number gutter holding `v`.
pub open spec fn gutter_text(v: Seq<char>, w: nat) -> Seq<char> {
    pad_left(v, w) + " | "@
}

/// Whether no highlight message holds a terminal reset sequence.
pub open spec fn hls_plain(hls: Seq<Highlight>) -> bool {
    forall|i: int| 0 <= i < hls.len() ==> #[trigger] hls[i].messages_plain()
}

/// Writes the line number gutter holding `value`.
fn write_gutter(out: &mut String, value: &str, width: u8, color_enabled: bool)
    ensures
        !color_enabled ==> final(out)@ == old(out)@ + gutter_text(value@, width as nat),
        !color_enabled || !holds_reset(value@) ==> writes(
            old(out)@,
            final(out)@,
            gutter_text(value@, width as nat),
        ),
{
    let ghost o0 = out@;
    if color_enabled {
        put_painted_bold(out, value, MessageColor::BrightBlue, width as usize);
        let ghost o1 = out@;
        put_char(out, ' ');
        let ghost o2 = out@;
        put_painted_bold(out, "|", MessageColor::BrightBlue, 0);
        let ghost o3 = out@;
        put_char(out, ' ');
        proof {
            reveal_strlit("|");
            reveal_strlit(" | ");
            lemma_short_no_reset("|"@);
            assert("|"@ =~= seq!['|']);
            if !holds_reset(value@) {
                let pv = pad_left(value@, width as nat);
                assert(crate::paint::right_aligned(value@, width as nat) =~= pv);
                lemma_writes_chain(o0, o1, o2, pv, seq![' ']);
                lemma_writes_chain(o0, o2, o3, pv + seq![' '], seq!['|']);
                lemma_writes_chain(o0, o3, out@, pv + seq![' '] + seq!['|'], seq![' ']);
                assert(pv + seq![' '] + seq!['|'] + seq![' '] =~= gutter_text(value@, width as nat));
            }
        }
    } else {
        let n = value.unicode_len();
        let w = width as usize;
        let pad = if n < w {
            w - n
        } else {
            0
        };
        push_repeat(out, ' ', pad);
        push_str(out, value);
        push_str(out, " | ");
        assert(out@ =~= old(out)@ + gutter_text(value@, width as nat));
        proof {
            lemma_writes_plain(o0, gutter_text(value@, width as nat));
        }
    }
}

/// The riser states that a display of the highlights starts with: waiting
/// for a multi-line highlight, unused for one on a single line.
pub open spec fn initial_risers(hls: Seq<Highlight>) -> Seq<RiserState> {
    Seq::new(
        hls.len(),
        |i: int|
            if hls[i].span.page.start.line != hls[i].span.page.end.line {
                RiserState::Waiting
            } else {
                RiserState::Unused
            },
    )
}

/// Whether some highlight spans several lines.
pub open spec fn any_multiline(hls: Seq<Highlight>) -> bool {
    exists|i: int|
        0 <= i < hls.len() && #[trigger] hls[i].span.page.start.line != hls[i].span.page.end.line
}

/// The risers of the first `k` highlights on a line, the highlight at
/// `active` drawing its message, and the riser states after them.
pub open spec fn risers_upto(
    hls: Seq<Highlight>,
    line: usize,
    states: Seq<RiserState>,
    active: int,
    k: nat,
) -> (Seq<char>, Seq<RiserState>)
    decreases k,
{
    if k == 0 {
        (Seq::empty(), states)
    } else {
        let prev = risers_upto(hls, line, states, active, (k - 1) as nat);
        let step = hls[k - 1].riser_step(line, prev.1[k - 1], active == k - 1);
        (prev.0 + step.0, prev.1.update(k - 1, step.1))
    }
}

/// The message lines of the first `k` highlights on a line, each with its
/// gutter and risers, and the riser states after them.
pub open spec fn messages_upto(
    hls: Seq<Highlight>,
    line: usize,
    states: Seq<RiserState>,
    gw: nat,
    mp: bool,
    k: nat,
) -> (Seq<char>, Seq<RiserState>)
    decreases k,
{
    if k == 0 {
        (Seq::empty(), states)
    } else {
        let prev = messages_upto(hls, line, states, gw, mp, (k - 1) as nat);
        let m = k - 1;
        if !hls[m].has_message_spec(line) {
            prev
        } else {
            let r = risers_upto(hls, line, prev.1, m, hls.len());
            (prev.0 + gutter_text(Seq::empty(), gw) + r.0 + hls[m].message_text(line, mp), r.1)
        }
    }
}

/// The characters of the text between two absolute positions.
pub open spec fn clip_text(src: SourceText<'_>, sp: Span) -> Seq<char> {
    decode_utf8(src.bytes().subrange(src.rel(sp.start_pos()).byte as int, src.rel(sp.end_pos()).byte as int))
}

/// Whether the text of a span can be cut from the source.
pub open spec fn clip_ok(src: SourceText<'_>, sp: Span) -> bool {
    &&& sp.byte.start <= sp.byte.end
    &&& src.in_text(sp.start_pos())
    &&& src.in_text(sp.end_pos())
}

/// The block written for one line of a span: its gutter, risers and text,
/// then the message lines of its highlights.
pub open spec fn line_block(
    src: SourceText<'_>,
    hls: Seq<Highlight>,
    sp: Span,
    states: Seq<RiserState>,
    gw: nat,
    mp: bool,
) -> (Seq<char>, Seq<RiserState>) {
    let line = sp.page.start.line;
    let r = risers_upto(hls, line, states, -1, hls.len());
    let text = gutter_text(decimal(line as nat), gw) + r.0 + (if mp {
        seq![' ']
    } else {
        Seq::empty()
    }) + clip_text(src, sp) + seq!['\n'];
    let m = messages_upto(hls, line, r.1, gw, mp, hls.len());
    (text + m.0, m.1)
}

/// The blocks written for the remaining lines of a span.
pub open spec fn lines_output(
    it: SplitLines<'_>,
    hls: Seq<Highlight>,
    states: Seq<RiserState>,
    gw: nat,
    mp: bool,
    fuel: nat,
) -> Seq<char>
    decreases fuel,
{
    if fuel == 0 || it.start.page.line > it.end.page.line {
        Seq::empty()
    } else {
        let step = it.next_spec();
        let b = line_block(it.source, hls, step.0->0, states, gw, mp);
        b.0 + lines_output(SplitLines { start: step.1, ..it }, hls, b.1, gw, mp, (fuel - 1) as nat)
    }
}

/// Whether every remaining line of a span can be split off and cut from
/// the source.
pub open spec fn lines_ok(it: SplitLines<'_>, fuel: nat) -> bool
    decreases fuel,
{
    if fuel == 0 || it.start.page.line > it.end.page.line {
        true
    } else {
        let step = it.next_spec();
        &&& it.next_ok()
        &&& clip_ok(it.source, step.0->0)
        &&& lines_ok(SplitLines { start: step.1, ..it }, (fuel - 1) as nat)
    }
}

/// The number of lines a split of the span from `start` to `end` yields.
pub open spec fn line_count(start: usize, end: usize) -> nat {
    if start <= end {
        (end - start + 1) as nat
    } else {
        0
    }
}

/// The active riser of a pass over the highlights, as an index (or -1).
pub open spec fn active_index(a: Option<usize>) -> int {
    match a {
        Some(i) => i as int,
        None => -1,
    }
}

/// Writes the risers of the highlights on a line, advancing their states.
#[verifier::rlimit(30)]
fn write_risers(
    out: &mut String,
    hls: &Vec<Highlight>,
    line: usize,
    states: &mut Vec<RiserState>,
    active: Option<usize>,
    color_enabled: bool,
)
    requires
        old(states)@.len() == hls@.len(),
    ensures
        final(states)@ == risers_upto(hls@, line, old(states)@, active_index(active), hls@.len()).1,
        final(states)@.len() == hls@.len(),
        !color_enabled ==> final(out)@ == old(out)@ + risers_upto(
            hls@,
            line,
            old(states)@,
            active_index(active),
            hls@.len(),
        ).0,
        writes(
            old(out)@,
            final(out)@,
            risers_upto(hls@, line, old(states)@, active_index(active), hls@.len()).0,
        ),
{
    let n = hls.len();
    let mut idx: usize = 0;
    proof {
        lemma_writes_nothing(out@);
    }
    while idx < n
        invariant
            n == hls@.len(),
            idx <= n,
            states@.len() == n,
            old(states)@.len() == n,
            states@ == risers_upto(hls@, line, old(states)@, active_index(active), idx as nat).1,
            !color_enabled ==> out@ == old(out)@ + risers_upto(
                hls@,
                line,
                old(states)@,
                active_index(active),
                idx as nat,
            ).0,
            writes(
                old(out)@,
                out@,
                risers_upto(hls@, line, old(states)@, active_index(active), idx as nat).0,
            ),
        decreases n - idx,
    {
        proof {
            lemma_risers_len(hls@, line, old(states)@, active_index(active), idx as nat);
        }
        let ghost ob = out@;
        let is_active = match active {
            Some(a) => a == idx,
            None => false,
        };
        let mut st = states[idx];
        hls[idx].write_riser_for_line(out, line, &mut st, is_active, color_enabled);
        states.set(idx, st);
        idx = idx + 1;
        proof {
            let prev0 = risers_upto(
                hls@,
                line,
                old(states)@,
                active_index(active),
                (idx - 1) as nat,
            );
            let step0 = hls@[idx - 1].riser_step(line, prev0.1[idx - 1], active_index(active) == idx - 1);
            lemma_writes_chain(old(out)@, ob, out@, prev0.0, step0.0);
            if !color_enabled {
                let prev = risers_upto(
                    hls@,
                    line,
                    old(states)@,
                    active_index(active),
                    (idx - 1) as nat,
                );
                assert(out@ =~= old(out)@ + risers_upto(
                    hls@,
                    line,
                    old(states)@,
                    active_index(active),
                    idx as nat,
                ).0);
            }
        }
    }
}

/// The riser states keep their number.
proof fn lemma_risers_len(
    hls: Seq<Highlight>,
    line: usize,
    states: Seq<RiserState>,
    active: int,
    k: nat,
)
    requires
        k <= hls.len(),
        states.len() == hls.len(),
    ensures
        risers_upto(hls, line, states, active, k).1.len() == hls.len(),
    decreases k,
{
    if k > 0 {
        lemma_risers_len(hls, line, states, active, (k - 1) as nat);
    }
}

/// Whether a highlight's messages can be written: a highlight on a single
/// line has a start or an end message, not both.
pub open spec fn messages_ok(hls: Seq<Highlight>) -> bool {
    forall|i: int|
        0 <= i < hls.len() ==> (#[trigger] hls[i].span.page.start.line
            == hls[i].span.page.end.line ==> !(hls[i].start_message is Some
            && hls[i].end_message is Some))
}

/// Writes the message lines of the highlights on a line.
#[verifier::rlimit(30)]
fn write_messages(
    out: &mut String,
    hls: &Vec<Highlight>,
    line: usize,
    states: &mut Vec<RiserState>,
    gw: u8,
    mp: bool,
    color_enabled: bool,
)
    requires
        old(states)@.len() == hls@.len(),
        messages_ok(hls@),
    ensures
        final(states)@ == messages_upto(hls@, line, old(states)@, gw as nat, mp, hls@.len()).1,
        final(states)@.len() == hls@.len(),
        !color_enabled ==> final(out)@ == old(out)@ + messages_upto(
            hls@,
            line,
            old(states)@,
            gw as nat,
            mp,
            hls@.len(),
        ).0,
        !color_enabled || hls_plain(hls@) ==> writes(
            old(out)@,
            final(out)@,
            messages_upto(hls@, line, old(states)@, gw as nat, mp, hls@.len()).0,
        ),
{
    let n = hls.len();
    let mut m: usize = 0;
    proof {
        reveal_strlit("");
        lemma_writes_nothing(out@);
    }
    while m < n
        invariant
            n == hls@.len(),
            m <= n,
            states@.len() == n,
            messages_ok(hls@),
            states@ == messages_upto(hls@, line, old(states)@, gw as nat, mp, m as nat).1,
            !color_enabled ==> out@ == old(out)@ + messages_upto(
                hls@,
                line,
                old(states)@,
                gw as nat,
                mp,
                m as nat,
            ).0,
            !color_enabled || hls_plain(hls@) ==> writes(
                old(out)@,
                out@,
                messages_upto(hls@, line, old(states)@, gw as nat, mp, m as nat).0,
            ),
        decreases n - m,
    {
        let ghost before = out@;
        let ghost st = states@;
        proof {
            reveal_strlit("");
            assert(""@ =~= Seq::<char>::empty());
            lemma_short_no_reset(""@);
        }
        if hls[m].has_message_for_line(line) {
            write_gutter(out, "", gw, color_enabled);
            let ghost og = out@;
            write_risers(out, hls, line, states, Some(m), color_enabled);
            let ghost or = out@;
            proof {
                assert(messages_ok(hls@));
                assert(hls@[m as int].span.page.start.line == hls@[m as int].span.page.end.line
                    ==> !(hls@[m as int].start_message is Some && hls@[m as int].end_message is Some));
            }
            hls[m].write_message_for_line(out, line, mp, color_enabled);
            proof {
                if !color_enabled || hls_plain(hls@) {
                    assert(hls@[m as int].messages_plain() || !color_enabled);
                    let r = risers_upto(hls@, line, st, m as int, hls@.len());
                    let g = gutter_text(Seq::empty(), gw as nat);
                    lemma_writes_chain(before, og, or, g, r.0);
                    lemma_writes_chain(before, or, out@, g + r.0, hls@[m as int].message_text(line, mp));
                    let prev = messages_upto(hls@, line, old(states)@, gw as nat, mp, m as nat);
                    lemma_writes_chain(old(out)@, before, out@, prev.0, g + r.0 + hls@[m as int].message_text(line, mp));
                    assert(prev.0 + (g + r.0 + hls@[m as int].message_text(line, mp)) =~= messages_upto(
                        hls@,
                        line,
                        old(states)@,
                        gw as nat,
                        mp,
                        (m + 1) as nat,
                    ).0);
                }
            }
        }
        m = m + 1;
        proof {
            if !color_enabled {
                assert(out@ =~= old(out)@ + messages_upto(
                    hls@,
                    line,
                    old(states)@,
                    gw as nat,
                    mp,
                    m as nat,
                ).0);
            }
        }
    }
}

/// The characters of a string slice are those its bytes decode to.
proof fn lemma_decode_str(t: &str)
    ensures
        decode_utf8(t.spec_bytes()) == t@,
{
    encode_utf8_decode_utf8(t@);
}

/// Writes the block for one line of a span.
#[verifier::rlimit(30)]
fn write_line_block(
    out: &mut String,
    src: SourceText<'_>,
    hls: &Vec<Highlight>,
    sp: Span,
    states: &mut Vec<RiserState>,
    gw: u8,
    mp: bool,
    color_enabled: bool,
)
    requires
        old(states)@.len() == hls@.len(),
        messages_ok(hls@),
        clip_ok(src, sp),
    ensures
        final(states)@ == line_block(src, hls@, sp, old(states)@, gw as nat, mp).1,
        final(states)@.len() == hls@.len(),
        !color_enabled ==> final(out)@ == old(out)@ + line_block(
            src,
            hls@,
            sp,
            old(states)@,
            gw as nat,
            mp,
        ).0,
        !color_enabled || hls_plain(hls@) ==> writes(
            old(out)@,
            final(out)@,
            line_block(src, hls@, sp, old(states)@, gw as nat, mp).0,
        ),
{
    let line = sp.page.start.line;
    let digits = decimal_string(line);
    let ghost o0 = out@;
    write_gutter(out, digits.as_str(), gw, color_enabled);
    let ghost o1 = out@;
    write_risers(out, hls, line, states, None, color_enabled);
    let ghost o2 = out@;
    if mp {
        push_char(out, ' ');
    }
    let ghost o3 = out@;
    proof {
        lemma_text_bounds(src.text);
    }
    let piece = substring(src.text, sp.byte.start - src.offset.byte, sp.byte.end - src.offset.byte);
    proof {
        lemma_decode_str(piece);
    }
    push_str(out, piece);
    push_char(out, '\n');
    let ghost o4 = out@;
    let ghost st2 = states@;
    write_messages(out, hls, line, states, gw, mp, color_enabled);
    proof {
        lemma_decimal_no_reset(line as nat);
        if !color_enabled || hls_plain(hls@) {
            let r = risers_upto(hls@, line, old(states)@, -1, hls@.len());
            let g = gutter_text(decimal(line as nat), gw as nat);
            let sp0: Seq<char> = if mp {
                seq![' ']
            } else {
                Seq::empty()
            };
            let mid = sp0 + clip_text(src, sp) + seq!['\n'];
            assert(o4 =~= o2 + mid);
            lemma_writes_plain(o2, mid);
            lemma_writes_chain(o0, o1, o2, g, r.0);
            lemma_writes_chain(o0, o2, o4, g + r.0, mid);
            let msgs = messages_upto(hls@, line, st2, gw as nat, mp, hls@.len());
            lemma_writes_chain(o0, o4, out@, g + r.0 + mid, msgs.0);
            assert(g + r.0 + mid + msgs.0 =~= line_block(src, hls@, sp, old(states)@, gw as nat, mp).0);
        }
        if !color_enabled {
            assert(o4 =~= o0 + line_block(src, hls@, sp, old(states)@, gw as nat, mp).0.subrange(
                0,
                o4.len() - o0.len(),
            ));
            assert(out@ =~= old(out)@ + line_block(src, hls@, sp, old(states)@, gw as nat, mp).0);
        }
    }
}

/// The number of highlights that span several lines.
pub open spec fn multiline_count(hls: Seq<Highlight>, k: nat) -> nat
    decreases k,
{
    if k == 0 {
        0
    } else {
        multiline_count(hls, (k - 1) as nat) + if hls[k - 1].span.page.start.line
            != hls[k - 1].span.page.end.line {
            1nat
        } else {
            0nat
        }
    }
}

/// No message type's label holds a terminal reset sequence.
proof fn lemma_label_no_reset(t: MessageType)
    ensures
        !holds_reset(label_text(t)),
{
    reveal_strlit("info");
    reveal_strlit("error");
    reveal_strlit("warning");
    reveal_strlit("note");
    reveal_strlit("help");
    lemma_no_reset(label_text(t));
}

/// The label of a message type, painted where color is enabled.
fn write_label(out: &mut String, t: MessageType, color_enabled: bool)
    ensures
        !color_enabled ==> final(out)@ == old(out)@ + label_text(t),
        old(out)@.len() <= final(out)@.len(),
        final(out)@.subrange(0, old(out)@.len() as int) == old(out)@,
        writes(old(out)@, final(out)@, label_text(t)),
{
    proof {
        lemma_label_no_reset(t);
    }
    if color_enabled {
        match t {
            MessageType::Info => put_str(out, "info"),
            _ => put_painted_bold(out, t.label(), t.color(), 0),
        }
    } else {
        put_str(out, t.label());
    }
}

impl Note {
    /// The note as written without color: its label and its text.
    pub open spec fn text(self) -> Seq<char> {
        label_text(self.note_type) + ": "@ + self.note@
    }

    /// Writes the note: its label and its text. With color, the label is
    /// painted, and what was written before stays in front while the text
    /// comes last.
    pub fn write_with_color_enablement(&self, out: &mut String, color_enabled: bool)
        ensures
            !color_enabled ==> final(out)@ == old(out)@ + self.text(),
            old(out)@.len() + 2 + self.note@.len() <= final(out)@.len(),
            final(out)@.subrange(0, old(out)@.len() as int) == old(out)@,
            final(out)@.subrange(
                final(out)@.len() - 2 - self.note@.len(),
                final(out)@.len() as int,
            ) == ": "@ + self.note@,
            writes(old(out)@, final(out)@, self.text()),
    {
        let ghost before = out@;
        write_label(out, self.note_type, color_enabled);
        let ghost mid = out@;
        push_str(out, ": ");
        push_str(out, self.note.as_str());
        proof {
            reveal_strlit(": ");
            assert(out@ =~= mid + (": "@ + self.note@));
            assert(out@.subrange(0, before.len() as int) =~= mid.subrange(0, before.len() as int));
            assert(out@.subrange(out@.len() - 2 - self.note@.len(), out@.len() as int) =~= ": "@
                + self.note@);
            lemma_writes_plain(mid, ": "@ + self.note@);
            lemma_writes_chain(before, mid, out@, label_text(self.note_type), ": "@ + self.note@);
            assert(label_text(self.note_type) + (": "@ + self.note@) =~= self.text());
        }
        assert(!color_enabled ==> out@ =~= old(out)@ + self.text());
    }
}

/// The notes of a span display, each on a line of its own after the gutter.
pub open spec fn span_notes_text(notes: Seq<Note>, gw: nat, k: nat) -> Seq<char>
    decreases k,
{
    if k == 0 {
        Seq::empty()
    } else {
        span_notes_text(notes, gw, (k - 1) as nat) + repeat_char(' ', gw) + " = "@ + notes[k
            - 1].text() + seq!['\n']
    }
}

impl SpanDisplay {
    /// The header line of the display: the source name and the span.
    pub open spec fn header_text(self) -> Seq<char> {
        let (name, sep) = match self.source_name {
            Some(n) => (n@, ":"@),
            None => (Seq::empty(), Seq::empty()),
        };
        repeat_char(' ', self.gutter_width as nat) + "--> "@ + name + sep + seq!['('] + span_text(
            self.span,
        ) + seq![')', '\n']
    }

    /// The lines of the span in the source, split at line breaks.
    pub open spec fn lines(self, src: SourceText<'_>) -> SplitLines<'_> {
        SplitLines { source: src, start: self.span.start_pos(), end: self.span.end_pos() }
    }

    /// Whether the display can be written for the source: every line of
    /// the span can be split off and cut from the source, at most 255
    /// highlights span several lines, and a highlight on a single line has
    /// one message.
    pub open spec fn write_ok(self, src: SourceText<'_>) -> bool {
        &&& lines_ok(
            self.lines(src),
            line_count(self.span.page.start.line, self.span.page.end.line),
        )
        &&& multiline_count(self.highlights@, self.highlights@.len()) <= 255
        &&& messages_ok(self.highlights@)
    }

    /// The display as written without color.
    pub open spec fn text(self, src: SourceText<'_>) -> Seq<char> {
        let gw = self.gutter_width as nat;
        self.header_text() + gutter_text(Seq::empty(), gw) + seq!['\n'] + lines_output(
            self.lines(src),
            self.highlights@,
            initial_risers(self.highlights@),
            gw,
            any_multiline(self.highlights@),
            line_count(self.span.page.start.line, self.span.page.end.line),
        ) + span_notes_text(self.notes@, gw, self.notes@.len())
    }
}

/// One step of splitting lines moves to the next line.
proof fn lemma_split_step(it: SplitLines<'_>)
    requires
        it.start.page.line <= it.end.page.line,
        it.next_ok(),
    ensures
        it.next_spec().0 is Some,
        it.next_spec().1.page.line == it.start.page.line + 1,
{
    if it.start.page.line < it.end.page.line {
        let src = it.source;
        let b = src.bytes();
        lemma_text_bounds(src.text);
        let rs = src.rel(it.start);
        lemma_line_end_keeps_line(src.metrics, b, rs);
        lemma_line_end_stops(src.metrics, b, rs);
    }
}

impl SpanDisplay {
    /// Writes the display: the header, the lines of the span with their
    /// risers and highlight messages, then the notes.
    #[verifier::rlimit(40)]
    pub fn write_with_color_enablement(
        &self,
        out: &mut String,
        src: SourceText<'_>,
        color_enabled: bool,
    )
        requires
            self.write_ok(src),
        ensures
            !color_enabled ==> final(out)@ == old(out)@ + self.text(src),
            !color_enabled || hls_plain(self.highlights@) ==> writes(
                old(out)@,
                final(out)@,
                self.text(src),
            ),
    {
        let gw = self.gutter_width;
        let ghost o0 = out@;
        self.write_header(out, color_enabled);
        let ghost oh = out@;
        proof {
            reveal_strlit("");
            assert(""@ =~= Seq::<char>::empty());
            lemma_short_no_reset(""@);
        }
        write_gutter(out, "", gw, color_enabled);
        let ghost og = out@;
        put_char(out, '\n');
        let ghost o1 = out@;
        let ghost head = self.header_text() + gutter_text(Seq::empty(), gw as nat) + seq!['\n'];
        proof {
            lemma_writes_chain(o0, oh, og, self.header_text(), gutter_text(Seq::empty(), gw as nat));
            lemma_writes_chain(o0, og, o1, self.header_text() + gutter_text(Seq::empty(), gw as nat), seq!['\n']);
        }
        let hls = &self.highlights;
        let n = hls.len();
        let mut states: Vec<RiserState> = Vec::new();
        let mut mp = false;
        let mut i: usize = 0;
        while i < n
            invariant
                n == hls@.len(),
                i <= n,
                states@ =~= initial_risers(hls@).subrange(0, i as int),
                mp == exists|j: int|
                    0 <= j < i && #[trigger] hls@[j].span.page.start.line
                        != hls@[j].span.page.end.line,
            decreases n - i,
        {
            if hls[i].is_multiline() {
                states.push(RiserState::Waiting);
                mp = true;
            } else {
                states.push(RiserState::Unused);
            }
            i = i + 1;
        }
        assert(states@ =~= initial_risers(hls@));
        assert(mp == any_multiline(hls@));
        let mut it = self.span.split_lines(src);
        let ghost fuel0 = line_count(self.span.page.start.line, self.span.page.end.line);
        let ghost mut fuel = fuel0;
        let ghost states0 = states@;
        let ghost mut done: Seq<char> = Seq::empty();
        proof {
            lemma_writes_nothing(o1);
        }
        while it.start.page.line <= it.end.page.line
            invariant
                fuel == line_count(it.start.page.line, it.end.page.line),
                it.end == self.span.end_pos(),
                it.source == src,
                lines_ok(it, fuel),
                states@.len() == hls@.len(),
                messages_ok(hls@),
                mp == any_multiline(hls@),
                !color_enabled ==> out@ == o1 + done,
                done + lines_output(it, hls@, states@, gw as nat, mp, fuel) == lines_output(
                    self.lines(src),
                    hls@,
                    states0,
                    gw as nat,
                    mp,
                    fuel0,
                ),
                !color_enabled || hls_plain(hls@) ==> writes(o1, out@, done),
            decreases fuel,
        {
            proof {
                lemma_split_step(it);
            }
            let ghost it0 = it;
            let ghost st0 = states@;
            let ghost ob = out@;
            let sp = it.next();
            match sp {
                Some(sp) => {
                    write_line_block(out, src, hls, sp, &mut states, gw, mp, color_enabled);
                },
                None => {},
            }
            proof {
                fuel = (fuel - 1) as nat;
                let b = line_block(src, hls@, it0.next_spec().0->0, st0, gw as nat, mp);
                assert(lines_output(it0, hls@, st0, gw as nat, mp, (fuel + 1) as nat) =~= b.0
                    + lines_output(it, hls@, states@, gw as nat, mp, fuel));
                if !color_enabled || hls_plain(hls@) {
                    lemma_writes_chain(o1, ob, out@, done, b.0);
                }
                done = done + b.0;
                assert(done + lines_output(it, hls@, states@, gw as nat, mp, fuel) =~= lines_output(
                    self.lines(src),
                    hls@,
                    states0,
                    gw as nat,
                    mp,
                    fuel0,
                ));
            }
        }
        let ghost o2 = out@;
        proof {
            assert(done =~= lines_output(self.lines(src), hls@, states0, gw as nat, mp, fuel0));
        }
        let notes = &self.notes;
        let mut k: usize = 0;
        proof {
            lemma_writes_nothing(o2);
            reveal_strlit(" = ");
        }
        while k < notes.len()
            invariant
                k <= notes@.len(),
                !color_enabled ==> out@ == o2 + span_notes_text(notes@, gw as nat, k as nat),
                writes(o2, out@, span_notes_text(notes@, gw as nat, k as nat)),
            decreases notes@.len() - k,
        {
            let ghost ok0 = out@;
            put_repeat(out, ' ', gw as usize);
            let ghost oka = out@;
            put_str(out, " = ");
            let ghost okb = out@;
            notes[k].write_with_color_enablement(out, color_enabled);
            let ghost okc = out@;
            put_char(out, '\n');
            proof {
                let sp = repeat_char(' ', gw as nat);
                lemma_writes_chain(ok0, oka, okb, sp, " = "@);
                lemma_writes_chain(ok0, okb, okc, sp + " = "@, notes@[k as int].text());
                lemma_writes_chain(ok0, okc, out@, sp + " = "@ + notes@[k as int].text(), seq!['\n']);
                lemma_writes_chain(
                    o2,
                    ok0,
                    out@,
                    span_notes_text(notes@, gw as nat, k as nat),
                    sp + " = "@ + notes@[k as int].text() + seq!['\n'],
                );
                assert(span_notes_text(notes@, gw as nat, k as nat) + (sp + " = "@
                    + notes@[k as int].text() + seq!['\n']) =~= span_notes_text(
                    notes@,
                    gw as nat,
                    (k + 1) as nat,
                ));
            }
            k = k + 1;
            assert(!color_enabled ==> out@ =~= o2 + span_notes_text(notes@, gw as nat, k as nat));
        }
        proof {
            let lines = lines_output(self.lines(src), hls@, states0, gw as nat, mp, fuel0);
            let notes_t = span_notes_text(notes@, gw as nat, notes@.len());
            if !color_enabled || hls_plain(hls@) {
                lemma_writes_chain(o0, o1, o2, head, lines);
                lemma_writes_chain(o0, o2, out@, head + lines, notes_t);
                assert(head + lines + notes_t =~= self.text(src));
            }
            if !color_enabled {
                assert(out@ =~= old(out)@ + self.text(src));
            }
        }
    }

    /// Writes the header line of the display.
    fn write_header(&self, out: &mut String, color_enabled: bool)
        ensures
            !color_enabled ==> final(out)@ == old(out)@ + self.header_text(),
            writes(old(out)@, final(out)@, self.header_text()),
    {
        let (name, sep) = match &self.source_name {
            Some(n) => (n.as_str(), ":"),
            None => ("", ""),
        };
        let ghost o0 = out@;
        put_repeat(out, ' ', self.gutter_width as usize);
        let ghost o1 = out@;
        proof {
            reveal_strlit("-->");
            reveal_strlit("--> ");
            lemma_short_no_reset("-->"@);
        }
        if color_enabled {
            put_painted_bold(out, "-->", MessageColor::BrightBlue, 0);
            let ghost oa = out@;
            put_char(out, ' ');
            proof {
                lemma_writes_chain(o1, oa, out@, "-->"@, seq![' ']);
                assert("-->"@ + seq![' '] =~= "--> "@);
            }
        } else {
            put_str(out, "--> ");
        }
        let ghost o2 = out@;
        push_str(out, name);
        push_str(out, sep);
        push_char(out, '(');
        push_span(out, self.span);
        push_char(out, ')');
        push_char(out, '\n');
        proof {
            reveal_strlit("");
            assert(""@ =~= Seq::<char>::empty());
            let rest = name@ + sep@ + seq!['('] + span_text(self.span) + seq![')', '\n'];
            assert(out@ =~= o2 + rest);
            lemma_writes_plain(o2, rest);
            lemma_writes_chain(o0, o1, o2, repeat_char(' ', self.gutter_width as nat), "--> "@);
            lemma_writes_chain(o0, o2, out@, repeat_char(' ', self.gutter_width as nat) + "--> "@, rest);
            assert(repeat_char(' ', self.gutter_width as nat) + "--> "@ + rest =~= self.header_text());
            if !color_enabled {
                assert(out@ =~= old(out)@ + self.header_text());
            }
        }
    }
}

/// The span displays as written without color, one after another.
pub open spec fn displays_text(ds: Seq<SpanDisplay>, src: SourceText<'_>, k: nat) -> Seq<char>
    decreases k,
{
    if k == 0 {
        Seq::empty()
    } else {
        displays_text(ds, src, (k - 1) as nat) + ds[k - 1].text(src)
    }
}

/// The notes of a code display as written without color, one after
/// another.
pub open spec fn notes_text(notes: Seq<Note>, k: nat) -> Seq<char>
    decreases k,
{
    if k == 0 {
        Seq::empty()
    } else {
        notes_text(notes, (k - 1) as nat) + notes[k - 1].text()
    }
}

impl CodeDisplay {
    /// Whether every span display can be written for the source.
    pub open spec fn write_ok(self, src: SourceText<'_>) -> bool {
        forall|i: int|
            0 <= i < self.span_displays@.len() ==> #[trigger] self.span_displays@[i].write_ok(src)
    }

    /// The display as written without color: the message type and message,
    /// each span display, then the notes.
    pub open spec fn text(self, src: SourceText<'_>) -> Seq<char> {
        label_text(self.message_type) + ": "@ + self.message@ + seq!['\n'] + displays_text(
            self.span_displays@,
            src,
            self.span_displays@.len(),
        ) + notes_text(self.notes@, self.notes@.len())
    }

    /// Whether painting keeps each message whole: neither the display's
    /// message nor any highlight message holds a terminal reset sequence.
    pub open spec fn messages_plain(self) -> bool {
        &&& !holds_reset(self.message@)
        &&& forall|i: int|
            0 <= i < self.span_displays@.len() ==> hls_plain(
                #[trigger] self.span_displays@[i].highlights@,
            )
    }

    /// Writes the display, with color where the display enables it.
    pub fn write(&self, out: &mut String, source: SourceText<'_>)
        requires
            self.write_ok(source),
        ensures
            !self.color_enabled ==> final(out)@ == old(out)@ + self.text(source),
            !self.color_enabled || self.messages_plain() ==> writes(
                old(out)@,
                final(out)@,
                self.text(source),
            ),
    {
        self.write_with_color_enablement(out, source, self.color_enabled)
    }

    /// Writes the display: the message type, the error code where colors
    /// are enabled, and the message, then each span display, then the
    /// notes.
    #[verifier::rlimit(30)]
    pub fn write_with_color_enablement(
        &self,
        out: &mut String,
        source: SourceText<'_>,
        color_enabled: bool,
    )
        requires
            self.write_ok(source),
        ensures
            !color_enabled ==> final(out)@ == old(out)@ + self.text(source),
            !color_enabled || self.messages_plain() ==> writes(
                old(out)@,
                final(out)@,
                self.text(source),
            ),
    {
        let ghost o0 = out@;
        let ghost head = label_text(self.message_type) + ": "@ + self.message@ + seq!['\n'];
        proof {
            reveal_strlit(": ");
            reveal_strlit(":");
            lemma_short_no_reset(":"@);
        }
        if color_enabled {
            write_label(out, self.message_type, true);
            let ghost oa = out@;
            match self.code_id {
                Some(code_id) => {
                    push_char(out, '[');
                    push_str(out, code_id);
                    push_char(out, ']');
                    proof {
                        assert(out@ =~= oa + (seq!['['] + code_id@ + seq![']']));
                        lemma_writes_extra(oa, seq!['['] + code_id@ + seq![']']);
                    }
                },
                None => {
                    proof {
                        lemma_writes_nothing(oa);
                    }
                },
            }
            let ghost ob = out@;
            put_painted_bold(out, ":", MessageColor::BrightWhite, 0);
            let ghost oc = out@;
            put_char(out, ' ');
            let ghost od = out@;
            put_painted_bold(out, self.message.as_str(), MessageColor::BrightWhite, 0);
            let ghost oe = out@;
            put_char(out, '\n');
            proof {
                if self.messages_plain() {
                    let l = label_text(self.message_type);
                    lemma_writes_chain(o0, oa, ob, l, Seq::empty());
                    assert(l + Seq::<char>::empty() =~= l);
                    lemma_writes_chain(o0, ob, oc, l, ":"@);
                    lemma_writes_chain(o0, oc, od, l + ":"@, seq![' ']);
                    lemma_writes_chain(o0, od, oe, l + ":"@ + seq![' '], self.message@);
                    lemma_writes_chain(o0, oe, out@, l + ":"@ + seq![' '] + self.message@, seq!['\n']);
                    assert(l + ":"@ + seq![' '] + self.message@ + seq!['\n'] =~= head);
                }
            }
        } else {
            write_label(out, self.message_type, false);
            push_str(out, ": ");
            push_str(out, self.message.as_str());
            push_char(out, '\n');
            proof {
                assert(out@ =~= o0 + head);
                lemma_writes_plain(o0, head);
            }
        }
        let ghost o1 = out@;
        let ds = &self.span_displays;
        let mut i: usize = 0;
        proof {
            lemma_writes_nothing(o1);
        }
        while i < ds.len()
            invariant
                i <= ds@.len(),
                forall|j: int| 0 <= j < ds@.len() ==> #[trigger] ds@[j].write_ok(source),
                !color_enabled ==> out@ == o1 + displays_text(ds@, source, i as nat),
                !color_enabled || self.messages_plain() ==> writes(o1, out@, displays_text(ds@, source, i as nat)),
                ds@ == self.span_displays@,
            decreases ds@.len() - i,
        {
            let ghost ob = out@;
            ds[i].write_with_color_enablement(out, source, color_enabled);
            proof {
                if !color_enabled || self.messages_plain() {
                    assert(!color_enabled || hls_plain(ds@[i as int].highlights@));
                    lemma_writes_chain(o1, ob, out@, displays_text(ds@, source, i as nat), ds@[i as int].text(source));
                }
            }
            i = i + 1;
            assert(!color_enabled ==> out@ =~= o1 + displays_text(ds@, source, i as nat));
        }
        let ghost o2 = out@;
        let notes = &self.notes;
        let mut k: usize = 0;
        proof {
            lemma_writes_nothing(o2);
        }
        while k < notes.len()
            invariant
                k <= notes@.len(),
                !color_enabled ==> out@ == o2 + notes_text(notes@, k as nat),
                writes(o2, out@, notes_text(notes@, k as nat)),
            decreases notes@.len() - k,
        {
            let ghost ob = out@;
            notes[k].write_with_color_enablement(out, color_enabled);
            proof {
                lemma_writes_chain(o2, ob, out@, notes_text(notes@, k as nat), notes@[k as int].text());
            }
            k = k + 1;
            assert(!color_enabled ==> out@ =~= o2 + notes_text(notes@, k as nat));
        }
        proof {
            let d = displays_text(ds@, source, ds@.len());
            let nt = notes_text(notes@, notes@.len());
            if !color_enabled || self.messages_plain() {
                lemma_writes_chain(o0, o1, o2, head, d);
                lemma_writes_chain(o0, o2, out@, head + d, nt);
                assert(head + d + nt =~= self.text(source));
            }
            if !color_enabled {
                assert(out@ =~= old(out)@ + self.text(source));
            }
        }
    }
}

impl<'text> crate::error::source::SourceError<'text> {
    /// Returns the error written out: its code display over its source
    /// text.
    pub fn to_string(&self) -> (r: String)
        requires
            self.code_display.write_ok(self.source_text),
        ensures
            !self.code_display.color_enabled ==> r@ == self.code_display.text(self.source_text),
            !self.code_display.color_enabled || self.code_display.messages_plain() ==> embeds(
                self.code_display.text(self.source_text),
                r@,
            ),
    {
        let mut s = String::new();
        proof {
            assert(s@ =~= Seq::<char>::empty());
        }
        self.code_display.write(&mut s, self.source_text);
        proof {
            assert(s@.subrange(0, s@.len() as int) =~= s@);
        }
        assert(!self.code_display.color_enabled ==> s@ =~= self.code_display.text(
            self.source_text,
        ));
        s
    }
}

impl crate::error::source::SourceErrorOwned {
    /// Returns the error written out: its code display over its source
    /// text.
    pub fn to_string(&self) -> (r: String)
        requires
            self.code_display.write_ok(self.source_text.borrowed()),
        ensures
            !self.code_display.color_enabled ==> r@ == self.code_display.text(
                self.source_text.borrowed(),
            ),
            !self.code_display.color_enabled || self.code_display.messages_plain() ==> embeds(
                self.code_display.text(self.source_text.borrowed()),
                r@,
            ),
    {
        let mut s = String::new();
        let src = self.source_text.borrow();
        proof {
            assert(s@ =~= Seq::<char>::empty());
        }
        self.code_display.write(&mut s, src);
        proof {
            assert(s@.subrange(0, s@.len() as int) =~= s@);
        }
        assert(!self.code_display.color_enabled ==> s@ =~= self.code_display.text(
            self.source_text.borrowed(),
        ));
        s
    }
}

} // verus!
