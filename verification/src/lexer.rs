//! The lexer: a scanner driven over a source text, with one token of
//! lookahead, token filtering and error recovery.
use vstd::prelude::*;
use vstd::std_specs::cmp::PartialEqSpec;
use crate::error::lexer::RecoverError;
use vstd::pervasive::strictly_cloned;
use crate::metrics::ColumnMetrics;
use crate::metrics::LineEnding;
use crate::position::Pos;
use crate::recover::Recover;
use crate::recover::accepts;
use crate::recover::contains_token;
use crate::recover::tokens_contain;
use crate::source::SourceText;
use crate::span::Span;
use crate::span::enclosing;
use crate::display::CodeDisplay;
use crate::display::SpanDisplay;
use crate::fmt::push_char;
use crate::fmt::push_span;
use crate::fmt::push_str;
use crate::fmt::span_text;
use crate::highlight::Highlight;
use crate::message::MessageType;

verus! {

/// A scanner: it recognizes the token at a position of a source text and
/// returns it with the position after it.
pub trait Scanner: Clone {
    /// The parse token type.
    type Token: Clone + PartialEq;

    /// What a scan from `base` returns, with the scanner state it leaves.
    /// Each implementation gives its own; an implementation outside
    /// verified code is known only through `scan`.
    closed spec fn scanned(&self, source: SourceText<'_>, base: Pos) -> (Self, Option<(Self::Token, Pos)>) {
        vstd::pervasive::arbitrary()
    }

    /// Scans the token starting at `base`, returning it and the position
    /// after it, or `None` where no token is recognized.
    fn scan(&mut self, source: SourceText<'_>, base: Pos) -> (r: Option<(Self::Token, Pos)>)
        ensures
            (*final(self), r) == old(self).scanned(source, base);
}

/// The scans from `at` on that skip the tokens the filter excludes: the
/// scanner state and cursor they leave, and the first token not excluded
/// with its start, if any. Scanning stops without a token where the scanner
/// fails, or where it returns an excluded token without moving forward.
pub open spec fn scan_unfiltered<'t, Sc: Scanner>(
    sc: Sc,
    source: SourceText<'t>,
    at: Pos,
    filter: Option<Vec<Sc::Token>>,
) -> (Sc, Pos, Option<(Pos, Sc::Token)>)
    decreases usize::MAX - at.byte,
{
    let (sc2, res) = sc.scanned(source, at);
    match res {
        None => (sc2, at, None),
        Some((t, adv)) => if filtered(filter, t) {
            if adv.byte <= at.byte {
                (sc2, at, None)
            } else {
                scan_unfiltered(sc2, source, adv, filter)
            }
        } else {
            (sc2, adv, Some((at, t)))
        },
    }
}

/// The lookahead buffer that a scan run from `at` fills: the first token
/// not excluded, with its start, the position after it and the scanner
/// state after it.
pub open spec fn buffer_of<'t, Sc: Scanner>(
    sc: Sc,
    source: SourceText<'t>,
    at: Pos,
    filter: Option<Vec<Sc::Token>>,
) -> Option<ScannerBuffer<Sc>> {
    let (sc2, cur, res) = scan_unfiltered(sc, source, at, filter);
    match res {
        Some((start, t)) => Some(ScannerBuffer { peek_scanner: sc2, peek_start: start, peek_cursor: cur, token: t }),
        None => None,
    }
}

/// Peeking predicts `next`: a peek leaves the cursor, the token start and
/// the parse start where they were, and `next` then returns the token
/// scanned ahead and takes the lexer past it.
pub proof fn lemma_peek_predicts_next<'t, Sc: Scanner>(before: Lexer<'t, Sc>, after: Lexer<'t, Sc>)
    requires
        Lexer::peeked(before, after),
    ensures
        after.cursor == before.cursor,
        after.token_start == before.token_start,
        after.parse_start == before.parse_start,
        !after.at_end(),
        after.buffer is Some,
        after.next_spec() == (after.taken(), Some(after.buffer->0.token)),
{
    reveal(Lexer::peeked);
}

/// Peeking does not change what `next` gives: where the scanner's clone
/// is exact, the token a peek scans ahead is the one `next` returns from
/// the lexer as it was before the peek, and `next` after the peek leaves
/// the scanner, the cursor and the token start where `next` before the peek
/// would.
pub proof fn lemma_peek_agrees_with_next<'t, Sc: Scanner>(before: Lexer<'t, Sc>, after: Lexer<'t, Sc>)
    requires
        Lexer::peeked(before, after),
        forall|c: Sc| #[trigger] strictly_cloned(before.scanner, c) ==> c == before.scanner,
    ensures
        after.cursor == before.cursor,
        after.token_start == before.token_start,
        after.parse_start == before.parse_start,
        before.next_spec().1 == Some(after.buffer->0.token),
        after.next_spec().1 == before.next_spec().1,
        after.next_spec().0.scanner == before.next_spec().0.scanner,
        after.next_spec().0.cursor == before.next_spec().0.cursor,
        after.next_spec().0.token_start == before.next_spec().0.token_start,
{
    reveal(Lexer::peeked);
    lemma_peek_predicts_next(before, after);
    if before.buffer is None {
        let c = choose|c: Sc|
            #![trigger strictly_cloned(before.scanner, c)]
            strictly_cloned(before.scanner, c) && after.buffer == buffer_of(
                c,
                before.source_text,
                before.cursor,
                before.filter,
            );
        assert(c == before.scanner);
    }
}

/// A token scanned ahead of the cursor, with the scanner state after it.
#[derive(Clone)]
pub struct ScannerBuffer<Sc: Scanner> {
    /// The scanner state after the token.
    pub peek_scanner: Sc,
    /// The start of the token.
    pub peek_start: Pos,
    /// The position after the token.
    pub peek_cursor: Pos,
    /// The token.
    pub token: Sc::Token,
}

/// Whether the filter excludes the token.
pub open spec fn filtered<T: PartialEq>(filter: Option<Vec<T>>, t: T) -> bool {
    filter matches Some(l) && contains_token(l@, t)
}

/// A lexer over a source text.
#[derive(Clone)]
pub struct Lexer<'text, Sc: Scanner> {
    /// The source text.
    pub source_text: SourceText<'text>,
    /// The scanner state at the cursor.
    pub scanner: Sc,
    /// The tokens that are skipped over, if any.
    pub filter: Option<Vec<Sc::Token>>,
    /// The error recovery state, if any.
    pub recover: Option<Box<Recover<Sc::Token>>>,
    /// The next token scanned ahead of the cursor, if any.
    pub buffer: Option<ScannerBuffer<Sc>>,
    /// The start of the current parse.
    pub parse_start: Pos,
    /// The start of the last token.
    pub token_start: Pos,
    /// The position after the last token.
    pub cursor: Pos,
}

impl<'text, Sc: Scanner> Lexer<'text, Sc> {
    /// Whether the lexer's state other than its lookahead buffer and
    /// scanner equals another's.
    pub open spec fn same_setup(self, other: Self) -> bool {
        &&& self.source_text == other.source_text
        &&& self.filter == other.filter
        &&& self.recover == other.recover
    }

    /// Whether the cursor has reached the end of the text.
    pub open spec fn at_end(self) -> bool {
        self.cursor.byte >= self.source_text.bytes().len()
    }

    /// Constructs a new lexer at the zero position.
    pub fn new(scanner: Sc, source_text: SourceText<'text>) -> (r: Self)
        ensures
            r.source_text == source_text,
            r.scanner == scanner,
            r.filter is None,
            r.recover is None,
            r.buffer is None,
            r.parse_start == Pos::new_spec(0, 0, 0),
            r.token_start == Pos::new_spec(0, 0, 0),
            r.cursor == Pos::new_spec(0, 0, 0),
    {
        Lexer {
            source_text,
            scanner,
            filter: None,
            recover: None,
            buffer: None,
            parse_start: Pos::zero(),
            token_start: Pos::zero(),
            cursor: Pos::zero(),
        }
    }

    /// Returns the lexer with the given column metrics.
    pub fn with_column_metrics(self, metrics: ColumnMetrics) -> (r: Self)
        ensures
            r == (Lexer {
                source_text: SourceText { metrics, ..self.source_text },
                ..self
            }),
    {
        let mut s = self;
        s.source_text.metrics = metrics;
        s
    }

    /// Returns the lexer with the given line ending.
    pub fn with_line_ending(self, line_ending: LineEnding) -> (r: Self)
        ensures
            r == (Lexer {
                source_text: SourceText {
                    metrics: ColumnMetrics { line_ending, ..self.source_text.metrics },
                    ..self.source_text
                },
                ..self
            }),
    {
        let mut s = self;
        s.source_text.metrics.line_ending = line_ending;
        s
    }

    /// Returns the lexer with the given tab width.
    pub fn with_tab_width(self, tab_width: u8) -> (r: Self)
        ensures
            r == (Lexer {
                source_text: SourceText {
                    metrics: ColumnMetrics { tab_width, ..self.source_text.metrics },
                    ..self.source_text
                },
                ..self
            }),
    {
        let mut s = self;
        s.source_text.metrics.tab_width = tab_width;
        s
    }

    /// Returns the lexer with the given filter; the lookahead is scanned
    /// again under it.
    pub fn with_filter(self, filter: Option<Vec<Sc::Token>>) -> (r: Self)
        ensures
            Self::only_buffer_changed(Lexer { filter, buffer: None, ..self }, r),
            self.at_end() ==> r.buffer is None,
            Sc::Token::obeys_eq_spec() ==> (r.buffer matches Some(b) ==> !filtered(filter, b.token)),
    {
        let mut s = self;
        let _ = s.set_filter(filter);
        s
    }

    /// Returns the underlying source text.
    pub fn source_text(&self) -> (r: SourceText<'text>)
        ensures
            r == self.source_text,
    {
        self.source_text
    }

    /// Returns the column metrics of the source text.
    pub fn column_metrics(&self) -> (r: ColumnMetrics)
        ensures
            r == self.source_text.metrics,
    {
        self.source_text.column_metrics()
    }

    /// Returns the line ending of the source text.
    pub fn line_ending(&self) -> (r: LineEnding)
        ensures
            r == self.source_text.metrics.line_ending,
    {
        self.column_metrics().line_ending
    }

    /// Returns the tab width of the source text.
    pub fn tab_width(&self) -> (r: u8)
        ensures
            r == self.source_text.metrics.tab_width,
    {
        self.column_metrics().tab_width
    }

    /// Returns true if the cursor is at or past the end of the text.
    pub fn is_empty(&self) -> (r: bool)
        ensures
            r == self.at_end(),
    {
        self.cursor.byte >= self.source_text.len()
    }

    /// Returns the recovery state.
    pub fn recover_state(&self) -> (r: Option<&Box<Recover<Sc::Token>>>)
        ensures
            r == match self.recover {
                Some(b) => Some(&b),
                None => None::<&Box<Recover<Sc::Token>>>,
            },
    {
        match &self.recover {
            Some(b) => Some(b),
            None => None,
        }
    }

    /// Sets the recovery state.
    pub fn set_recover_state(&mut self, recover: Option<Box<Recover<Sc::Token>>>)
        ensures
            *final(self) == (Lexer { recover, ..*old(self) }),
    {
        self.recover = recover;
    }

    /// Returns the filter.
    pub fn filter(&self) -> (r: Option<&Vec<Sc::Token>>)
        ensures
            r == match self.filter {
                Some(f) => Some(&f),
                None => None::<&Vec<Sc::Token>>,
            },
    {
        match &self.filter {
            Some(f) => Some(f),
            None => None,
        }
    }

    /// Sets the filter, returning the previous one; the lookahead is
    /// dropped and scanned again under the new filter.
    pub fn set_filter(&mut self, filter: Option<Vec<Sc::Token>>) -> (r: Option<Vec<Sc::Token>>)
        ensures
            r == old(self).filter,
            Self::only_buffer_changed(Lexer { filter, buffer: None, ..*old(self) }, *final(self)),
            old(self).at_end() ==> final(self).buffer is None,
            Sc::Token::obeys_eq_spec() ==> (final(self).buffer matches Some(b) ==> !filtered(
                filter,
                b.token,
            )),
            Sc::Token::obeys_eq_spec() && !old(self).at_end() ==> exists|c: Sc|
                #![trigger strictly_cloned(old(self).scanner, c)]
                strictly_cloned(old(self).scanner, c) && final(self).buffer == buffer_of(
                    c,
                    old(self).source_text,
                    old(self).cursor,
                    filter,
                ),
    {
        let res = self.filter.take();
        self.filter = filter;
        self.buffer = None;
        if self.cursor.byte < self.source_text.len() {
            self.buffer_next();
        }
        res
    }

    /// Starts a new parse at the cursor.
    pub fn start_sublex(&mut self)
        ensures
            *final(self) == (Lexer {
                parse_start: old(self).cursor,
                token_start: old(self).cursor,
                ..*old(self)
            }),
    {
        self.parse_start = self.cursor;
        self.token_start = self.cursor;
    }

    /// Returns the lexer with a new parse started at the cursor.
    pub fn into_sublexer(self) -> (r: Self)
        ensures
            r == (Lexer { parse_start: self.cursor, token_start: self.cursor, ..self }),
    {
        let mut s = self;
        s.start_sublex();
        s
    }

    /// Returns the span of the last token.
    pub fn token_span(&self) -> (r: Span)
        ensures
            r == enclosing(self.token_start, self.cursor),
    {
        Span::new_enclosing(self.token_start, self.cursor)
    }

    /// Returns the span of the current parse.
    pub fn parse_span(&self) -> (r: Span)
        ensures
            r == enclosing(self.parse_start, self.cursor),
    {
        Span::new_enclosing(self.parse_start, self.cursor)
    }

    /// Returns the cursor position.
    pub fn cursor_pos(&self) -> (r: Pos)
        ensures
            r == self.cursor,
    {
        self.cursor
    }

    /// Returns the span of the token scanned ahead, if any and nonempty.
    pub fn peek_token_span(&self) -> (r: Option<Span>)
        ensures
            r == match self.buffer {
                Some(b) => if b.peek_start == b.peek_cursor {
                    None
                } else {
                    Some(enclosing(b.peek_start, b.peek_cursor))
                },
                None => None,
            },
    {
        match &self.buffer {
            Some(b) => if b.peek_start == b.peek_cursor {
                None
            } else {
                Some(Span::new_enclosing(b.peek_start, b.peek_cursor))
            },
            None => None,
        }
    }

    /// Returns the parse span as it would be after taking the token
    /// scanned ahead, if any.
    pub fn peek_parse_span(&self) -> (r: Option<Span>)
        ensures
            r == match self.buffer {
                Some(b) => Some(
                    if b.peek_start == self.cursor {
                        enclosing(self.parse_start, b.peek_cursor)
                    } else {
                        enclosing(self.parse_start, self.cursor)
                    },
                ),
                None => None,
            },
    {
        match &self.buffer {
            Some(b) => Some(
                if b.peek_start == self.cursor {
                    Span::new_enclosing(self.parse_start, b.peek_cursor)
                } else {
                    Span::new_enclosing(self.parse_start, self.cursor)
                },
            ),
            None => None,
        }
    }

    /// Returns the position after the token scanned ahead, if any.
    pub fn peek_cursor_pos(&self) -> (r: Option<Pos>)
        ensures
            r == match self.buffer {
                Some(b) => Some(b.peek_cursor),
                None => None,
            },
    {
        match &self.buffer {
            Some(b) => Some(b.peek_cursor),
            None => None,
        }
    }

    /// Returns whether the filter excludes the token.
    fn is_filtered(&self, tok: &Sc::Token) -> (r: bool)
        ensures
            Sc::Token::obeys_eq_spec() ==> r == filtered(self.filter, *tok),
    {
        match &self.filter {
            Some(f) => tokens_contain(f, tok),
            None => false,
        }
    }
}

impl<'text, Sc: Scanner> Lexer<'text, Sc> {
    /// The lexer that `next` leaves when it takes the token scanned ahead.
    pub open spec fn taken(self) -> Self {
        let b = self.buffer->0;
        Lexer {
            scanner: b.peek_scanner,
            token_start: b.peek_start,
            parse_start: if self.parse_start == self.cursor {
                b.peek_start
            } else {
                self.parse_start
            },
            cursor: b.peek_cursor,
            buffer: None,
            ..self
        }
    }

    /// What `next` leaves and returns from a lexer that is not at the end:
    /// the token scanned ahead, if any; else the first token not excluded,
    /// scanned from the cursor, or none where scanning stops without one.
    pub open spec fn next_spec(self) -> (Self, Option<Sc::Token>) {
        match self.buffer {
            Some(b) => (self.taken(), Some(b.token)),
            None => {
                let (sc, cur, res) = scan_unfiltered(self.scanner, self.source_text, self.cursor, self.filter);
                match res {
                    Some((start, t)) => (
                        Lexer {
                            scanner: sc,
                            token_start: start,
                            parse_start: if self.parse_start == self.cursor {
                                self.token_start
                            } else {
                                self.parse_start
                            },
                            cursor: cur,
                            buffer: None,
                            ..self
                        },
                        Some(t),
                    ),
                    None => (Lexer { scanner: sc, cursor: cur, buffer: None, ..self }, None),
                }
            },
        }
    }

    /// Whether `after` is a lexer that `peek` can leave from `before` with
    /// a token scanned ahead: the token kept from before, or else the first
    /// token not excluded, scanned from the cursor by a clone of the
    /// scanner.
    #[verifier::opaque]
    pub open spec fn peeked(before: Self, after: Self) -> bool {
        &&& !before.at_end()
        &&& Self::only_buffer_changed(before, after)
        &&& after.buffer is Some
        &&& match before.buffer {
            Some(_) => after.buffer == before.buffer,
            None => exists|c: Sc|
                #![trigger strictly_cloned(before.scanner, c)]
                strictly_cloned(before.scanner, c) && after.buffer == buffer_of(
                    c,
                    before.source_text,
                    before.cursor,
                    before.filter,
                ),
        }
    }

    /// Whether no token follows the cursor: the text has ended, or nothing
    /// is scanned ahead and a scan from a clone of the scanner finds no
    /// token that the filter lets through.
    pub open spec fn stream_ended(self) -> bool {
        ||| self.at_end()
        ||| self.buffer is None && exists|c: Sc|
            #![trigger strictly_cloned(self.scanner, c)]
            strictly_cloned(self.scanner, c) && buffer_of(
                c,
                self.source_text,
                self.cursor,
                self.filter,
            ) is None
    }

    /// Whether `after` differs from `before` only in its lookahead buffer.
    pub open spec fn only_buffer_changed(before: Self, after: Self) -> bool {
        &&& after.same_setup(before)
        &&& after.scanner == before.scanner
        &&& after.parse_start == before.parse_start
        &&& after.token_start == before.token_start
        &&& after.cursor == before.cursor
    }

    /// Scans ahead to the next token that the filter does not exclude and
    /// keeps it in the buffer, unless a token is buffered already.
    ///
    /// Scanning stops without a token where the scanner fails, or where it
    /// returns an excluded token without moving forward.
    fn buffer_next(&mut self)
        ensures
            Self::only_buffer_changed(*old(self), *final(self)),
            old(self).buffer is Some ==> final(self).buffer == old(self).buffer,
            Sc::Token::obeys_eq_spec() && old(self).buffer is None ==> (final(self).buffer matches Some(
                b,
            ) ==> !filtered(final(self).filter, b.token)),
            Sc::Token::obeys_eq_spec() && old(self).buffer is None ==> exists|c: Sc|
                #![trigger strictly_cloned(old(self).scanner, c)]
                strictly_cloned(old(self).scanner, c) && final(self).buffer == buffer_of(
                    c,
                    old(self).source_text,
                    old(self).cursor,
                    old(self).filter,
                ),
    {
        if self.buffer.is_some() {
            return ;
        }
        let mut peek_scanner = self.scanner.clone();
        let ghost c = peek_scanner;
        let mut peek_cursor = self.cursor;
        loop
            invariant_except_break
                self.buffer is None,
                Sc::Token::obeys_eq_spec() ==> buffer_of(
                    peek_scanner,
                    self.source_text,
                    peek_cursor,
                    self.filter,
                ) == buffer_of(c, old(self).source_text, old(self).cursor, old(self).filter),
            invariant
                Self::only_buffer_changed(*old(self), *self),
                old(self).buffer is None,
                strictly_cloned(old(self).scanner, c),
            ensures
                Self::only_buffer_changed(*old(self), *self),
                Sc::Token::obeys_eq_spec() ==> (self.buffer matches Some(b) ==> !filtered(
                    self.filter,
                    b.token,
                )),
                Sc::Token::obeys_eq_spec() ==> self.buffer == buffer_of(
                    c,
                    old(self).source_text,
                    old(self).cursor,
                    old(self).filter,
                ),
            decreases usize::MAX - peek_cursor.byte,
        {
            let ghost before = peek_scanner;
            match peek_scanner.scan(self.source_text, peek_cursor) {
                Some((tok, adv)) => {
                    if self.is_filtered(&tok) {
                        if adv.byte <= peek_cursor.byte {
                            break ;
                        }
                        peek_cursor = adv;
                    } else {
                        self.buffer = Some(
                            ScannerBuffer {
                                peek_scanner,
                                peek_start: peek_cursor,
                                peek_cursor: adv,
                                token: tok,
                            },
                        );
                        break ;
                    }
                },
                None => {
                    break ;
                },
            }
        }
    }

    /// Returns the next token without consuming it: the token is scanned
    /// ahead and kept until the next call of `next`.
    pub fn peek(&mut self) -> (r: Option<Sc::Token>)
        ensures
            Sc::Token::obeys_eq_spec() && r is Some ==> Self::peeked(*old(self), *final(self)),
            Self::only_buffer_changed(*old(self), *final(self)),
            old(self).at_end() ==> r is None && *final(self) == *old(self),
            !old(self).at_end() ==> (final(self).buffer is Some <==> r is Some),
            !old(self).at_end() ==> (final(self).buffer matches Some(b) ==> strictly_cloned(
                b.token,
                r->0,
            )),
            !old(self).at_end() && old(self).buffer is Some ==> final(self).buffer == old(
                self,
            ).buffer,
            Sc::Token::obeys_eq_spec() && !old(self).at_end() && old(self).buffer is None ==> (
            final(self).buffer matches Some(b) ==> !filtered(final(self).filter, b.token)),
            Sc::Token::obeys_eq_spec() && !old(self).at_end() && old(self).buffer is None ==> exists|
                c: Sc,
            |
                #![trigger strictly_cloned(old(self).scanner, c)]
                strictly_cloned(old(self).scanner, c) && final(self).buffer == buffer_of(
                    c,
                    old(self).source_text,
                    old(self).cursor,
                    old(self).filter,
                ),
    {
        if self.cursor.byte >= self.source_text.len() {
            return None;
        }
        self.buffer_next();
        proof {
            reveal(Lexer::peeked);
        }
        match &self.buffer {
            Some(b) => Some(b.token.clone()),
            None => None,
        }
    }

    /// Returns true if no token follows the cursor: the buffer is filled
    /// first, so that excluded tokens are skipped over.
    pub fn is_empty_with_filter(&mut self) -> (r: bool)
        ensures
            Self::only_buffer_changed(*old(self), *final(self)),
            r == final(self).at_end(),
            old(self).buffer is Some ==> final(self).buffer == old(self).buffer,
    {
        self.buffer_next();
        self.cursor.byte >= self.source_text.len()
    }

    /// Consumes and returns the next token that the filter does not
    /// exclude. A token scanned ahead by `peek` is the one returned.
    ///
    /// Scanning stops without a token where the scanner fails, or where it
    /// returns an excluded token without moving forward.
    pub fn next(&mut self) -> (r: Option<Sc::Token>)
        ensures
            Sc::Token::obeys_eq_spec() && !old(self).at_end() ==> (*final(self), r) == old(
                self,
            ).next_spec(),
            final(self).same_setup(*old(self)),
            final(self).buffer is None || (old(self).at_end() && final(self).buffer == old(
                self,
            ).buffer),
            old(self).at_end() ==> r is None && *final(self) == *old(self),
            !old(self).at_end() ==> match old(self).buffer {
                Some(b) => {
                    &&& r == Some(b.token)
                    &&& final(self).scanner == b.peek_scanner
                    &&& final(self).token_start == b.peek_start
                    &&& final(self).cursor == b.peek_cursor
                    &&& final(self).parse_start == if old(self).parse_start == old(self).cursor {
                        b.peek_start
                    } else {
                        old(self).parse_start
                    }
                },
                None => {
                    &&& Sc::Token::obeys_eq_spec() ==> (r matches Some(t) ==> !filtered(
                        old(self).filter,
                        t,
                    ))
                    &&& r is None ==> final(self).parse_start == old(self).parse_start
                        && final(self).token_start == old(self).token_start
                    &&& r is Some ==> final(self).parse_start == if old(self).parse_start == old(
                        self,
                    ).cursor {
                        old(self).token_start
                    } else {
                        old(self).parse_start
                    }
                    &&& Sc::Token::obeys_eq_spec() ==> {
                        let (sc, cur, res) = scan_unfiltered(
                            old(self).scanner,
                            old(self).source_text,
                            old(self).cursor,
                            old(self).filter,
                        );
                        &&& final(self).scanner == sc
                        &&& final(self).cursor == cur
                        &&& r == match res {
                            Some((_, t)) => Some(t),
                            None => None::<Sc::Token>,
                        }
                        &&& res matches Some((start, _)) ==> final(self).token_start == start
                    }
                },
            },
    {
        if self.cursor.byte >= self.source_text.len() {
            return None;
        }
        let buffered = self.buffer.take();
        match buffered {
            Some(buf) => {
                self.scanner = buf.peek_scanner;
                self.token_start = buf.peek_start;
                if self.parse_start == self.cursor {
                    self.parse_start = buf.peek_start;
                }
                self.cursor = buf.peek_cursor;
                return Some(buf.token);
            },
            None => {},
        }
        let behind = self.parse_start == self.cursor;
        loop
            invariant_except_break
                Sc::Token::obeys_eq_spec() ==> scan_unfiltered(
                    self.scanner,
                    self.source_text,
                    self.cursor,
                    self.filter,
                ) == scan_unfiltered(
                    old(self).scanner,
                    old(self).source_text,
                    old(self).cursor,
                    old(self).filter,
                ),
            invariant
                self.same_setup(*old(self)),
                self.buffer is None,
                old(self).buffer is None,
                !old(self).at_end(),
                self.parse_start == old(self).parse_start,
                self.token_start == old(self).token_start,
                behind == (old(self).parse_start == old(self).cursor),
            ensures
                self.same_setup(*old(self)),
                self.buffer is None,
                self.parse_start == old(self).parse_start,
                self.token_start == old(self).token_start,
                Sc::Token::obeys_eq_spec() ==> scan_unfiltered(
                    old(self).scanner,
                    old(self).source_text,
                    old(self).cursor,
                    old(self).filter,
                ) == (self.scanner, self.cursor, None::<(Pos, Sc::Token)>),
            decreases usize::MAX - self.cursor.byte,
        {
            match self.scanner.scan(self.source_text, self.cursor) {
                Some((tok, adv)) => {
                    if self.is_filtered(&tok) {
                        if adv.byte <= self.cursor.byte {
                            break ;
                        }
                        self.cursor = adv;
                    } else {
                        if behind {
                            self.parse_start = self.token_start;
                        }
                        self.token_start = self.cursor;
                        self.cursor = adv;
                        return Some(tok);
                    }
                },
                None => {
                    break ;
                },
            }
        }
        None
    }
}

impl<'text, Sc: Scanner> Lexer<'text, Sc> {
    /// Consumes and returns the next token if `pred` accepts it.
    pub fn next_if<P: FnOnce(&Sc::Token) -> bool>(&mut self, pred: P) -> (r: Option<Sc::Token>)
        requires
            forall|t: &Sc::Token| pred.requires((t,)),
        ensures
            final(self).same_setup(*old(self)),
            old(self).at_end() ==> r is None && *final(self) == *old(self),
            r matches Some(t) ==> exists|c: Sc::Token|
                #![trigger strictly_cloned(t, c)]
                strictly_cloned(t, c) && pred.ensures((&c,), true),
            r is None ==> Self::only_buffer_changed(*old(self), *final(self)),
            !old(self).at_end() && r is None ==> (final(self).buffer is None || exists|c: Sc::Token|
                #![trigger strictly_cloned(final(self).buffer->0.token, c)]
                strictly_cloned(final(self).buffer->0.token, c) && pred.ensures((&c,), false)),
            r is Some ==> final(self).buffer is None && exists|b: ScannerBuffer<Sc>|
                #![trigger b.peek_cursor]
                {
                    &&& old(self).buffer is Some ==> old(self).buffer == Some(b)
                    &&& r == Some(b.token)
                    &&& final(self).scanner == b.peek_scanner
                    &&& final(self).token_start == b.peek_start
                    &&& final(self).cursor == b.peek_cursor
                },
    {
        match self.peek() {
            Some(t) => {
                let ghost buffered = self.buffer;
                let accepted = pred(&t);
                if accepted {
                    let r = self.next();
                    proof {
                        assert(strictly_cloned(buffered->0.token, t));
                        assert(r == Some(buffered->0.token));
                        assert(strictly_cloned(r->0, t) && pred.ensures((&t,), true));
                        assert(self.cursor == buffered->0.peek_cursor);
                    }
                    r
                } else {
                    proof {
                        assert(strictly_cloned(self.buffer->0.token, t) && pred.ensures((&t,), false));
                    }
                    None
                }
            },
            None => None,
        }
    }

    /// Consumes and returns the next token if it equals `expected`.
    pub fn next_if_eq(&mut self, expected: &Sc::Token) -> (r: Option<Sc::Token>)
        ensures
            final(self).same_setup(*old(self)),
            old(self).at_end() ==> r is None && *final(self) == *old(self),
            Sc::Token::obeys_eq_spec() ==> (r matches Some(t) ==> exists|c: Sc::Token|
                #![trigger strictly_cloned(t, c)]
                strictly_cloned(t, c) && c.eq_spec(expected)),
            r is None ==> Self::only_buffer_changed(*old(self), *final(self)),
            Sc::Token::obeys_eq_spec() && !old(self).at_end() && r is None ==> (final(self).buffer is None
                || exists|c: Sc::Token|
                #![trigger strictly_cloned(final(self).buffer->0.token, c)]
                strictly_cloned(final(self).buffer->0.token, c) && !c.eq_spec(expected)),
            r is Some ==> final(self).buffer is None && exists|b: ScannerBuffer<Sc>|
                #![trigger b.peek_cursor]
                {
                    &&& old(self).buffer is Some ==> old(self).buffer == Some(b)
                    &&& r == Some(b.token)
                    &&& final(self).scanner == b.peek_scanner
                    &&& final(self).token_start == b.peek_start
                    &&& final(self).cursor == b.peek_cursor
                },
    {
        match self.peek() {
            Some(t) => {
                let ghost buffered = self.buffer;
                let same = t == *expected;
                if same {
                    let r = self.next();
                    proof {
                        assert(strictly_cloned(buffered->0.token, t));
                        assert(r == Some(buffered->0.token));
                        if Sc::Token::obeys_eq_spec() {
                            assert(strictly_cloned(r->0, t) && t.eq_spec(expected));
                        }
                        assert(self.cursor == buffered->0.peek_cursor);
                    }
                    r
                } else {
                    proof {
                        if Sc::Token::obeys_eq_spec() {
                            assert(strictly_cloned(self.buffer->0.token, t) && !t.eq_spec(expected));
                        }
                    }
                    None
                }
            },
            None => None,
        }
    }

    /// Advances the lexer until the next token is one that `pred` accepts,
    /// leaving that token unconsumed. Returns `true` if one was found, and
    /// `false` if the end of the text was reached, the scanner failed, or a
    /// token did not move the cursor forward.
    pub fn advance_up_to<P: Fn(&Sc::Token) -> bool>(&mut self, pred: P) -> (r: bool)
        requires
            forall|t: &Sc::Token| pred.requires((t,)),
        ensures
            final(self).same_setup(*old(self)),
            r ==> (final(self).buffer matches Some(b) && exists|c: Sc::Token|
                #![trigger strictly_cloned(b.token, c)]
                strictly_cloned(b.token, c) && pred.ensures((&c,), true)),
            !r ==> final(self).at_end() || final(self).buffer is None,
    {
        loop
            invariant
                self.same_setup(*old(self)),
                forall|t: &Sc::Token| pred.requires((t,)),
            decreases usize::MAX - self.cursor.byte,
        {
            let before = self.cursor.byte;
            match self.peek() {
                Some(tok) => {
                    if pred(&tok) {
                        return true;
                    }
                    let _ = self.next();
                    if self.cursor.byte <= before {
                        return false;
                    }
                },
                None => {
                    return false;
                },
            }
        }
    }

    /// Advances the lexer to after the next token that `pred` accepts.
    /// Returns `true` if one was found, and `false` if the end of the text
    /// was reached, the scanner failed, or a token did not move the cursor
    /// forward.
    pub fn advance_to<P: Fn(&Sc::Token) -> bool>(&mut self, pred: P) -> (r: bool)
        requires
            forall|t: &Sc::Token| pred.requires((t,)),
        ensures
            final(self).same_setup(*old(self)),
            r ==> final(self).buffer is None && exists|t: Sc::Token|
                #![trigger pred.ensures((&t,), true)]
                pred.ensures((&t,), true),
            !r ==> final(self).at_end() || final(self).buffer is None,
    {
        loop
            invariant
                self.same_setup(*old(self)),
                forall|t: &Sc::Token| pred.requires((t,)),
            decreases usize::MAX - self.cursor.byte,
        {
            let before = self.cursor.byte;
            match self.next() {
                Some(tok) => {
                    if pred(&tok) {
                        return true;
                    }
                    if self.cursor.byte <= before {
                        return false;
                    }
                },
                None => {
                    return false;
                },
            }
        }
    }

    /// Advances the lexer until the recovery state accepts a token, and
    /// returns the span skipped over. Without a recovery state, nothing is
    /// skipped. Fails where the text ends, the scanner fails, or a token
    /// does not move the cursor forward before a token is accepted.
    pub fn advance_to_recover(&mut self) -> (r: Result<Span, RecoverError>)
        ensures
            final(self).source_text == old(self).source_text,
            final(self).filter == old(self).filter,
            final(self).recover is Some == old(self).recover is Some,
            old(self).recover is None ==> *final(self) == *old(self) && r == Ok::<
                Span,
                RecoverError,
            >(enclosing(old(self).cursor, old(self).cursor)),
            old(self).recover is Some ==> (r matches Ok(span) ==> span == enclosing(
                old(self).cursor,
                final(self).cursor,
            )),
            Sc::Token::obeys_eq_spec() && old(self).recover is Some && r is Ok ==> {
                &&& final(self).buffer is Some
                &&& final(self).recover is Some
                &&& exists|c: Sc::Token|
                    #![trigger strictly_cloned(final(self).buffer->0.token, c)]
                    strictly_cloned(final(self).buffer->0.token, c) && accepts(
                        *final(self).recover->0,
                        c,
                    )
            },
            old(self).recover is Some && r is Err ==> final(self).at_end()
                || final(self).buffer is None,
    {
        if self.recover.is_none() {
            return Ok(Span::new_at(self.cursor));
        }
        let start_pos = self.cursor;
        let mut rec = match self.recover.take() {
            Some(rec) => rec,
            None => {
                return Ok(Span::new_at(self.cursor));
            },
        };
        let mut token_found = false;
        loop
            invariant_except_break
                !token_found,
            invariant
                self.source_text == old(self).source_text,
                self.filter == old(self).filter,
                self.recover is None,
                old(self).recover is Some,
            ensures
                self.source_text == old(self).source_text,
                self.filter == old(self).filter,
                self.recover is None,
                token_found ==> Sc::Token::obeys_eq_spec() ==> {
                    &&& self.buffer is Some
                    &&& exists|c: Sc::Token|
                        #![trigger strictly_cloned(self.buffer->0.token, c)]
                        strictly_cloned(self.buffer->0.token, c) && accepts(*rec, c)
                },
                !token_found ==> self.at_end() || self.buffer is None,
            decreases usize::MAX - self.cursor.byte,
        {
            let before = self.cursor.byte;
            match self.peek() {
                Some(token) => {
                    let ghost t = token;
                    let ghost r0 = *rec;
                    match rec.call(token) {
                        Err(e) => {
                            self.recover = Some(rec);
                            return Err(e);
                        },
                        Ok(true) => {
                            token_found = true;
                            proof {
                                if Sc::Token::obeys_eq_spec() {
                                    assert(strictly_cloned(self.buffer->0.token, t));
                                    assert(*rec == r0);
                                }
                            }
                            break ;
                        },
                        Ok(false) => {},
                    }
                    let _ = self.next();
                    if self.cursor.byte <= before {
                        break ;
                    }
                },
                None => {
                    break ;
                },
            }
        }
        self.recover = Some(rec);
        if token_found {
            Ok(Span::new_enclosing(start_pos, self.cursor))
        } else {
            Err(RecoverError)
        }
    }

    /// Returns a copy of the lexer: its scanner, filter, recovery state and
    /// buffered token are cloned, its positions copied.
    pub fn snapshot(&self) -> (r: Self)
        ensures
            r.source_text == self.source_text,
            r.parse_start == self.parse_start,
            r.token_start == self.token_start,
            r.cursor == self.cursor,
            r.buffer is Some <==> self.buffer is Some,
            r.buffer matches Some(b) ==> b.peek_start == self.buffer->0.peek_start
                && b.peek_cursor == self.buffer->0.peek_cursor && strictly_cloned(
                self.buffer->0.token,
                b.token,
            ),
    {
        let buffer = match &self.buffer {
            Some(b) => Some(
                ScannerBuffer {
                    peek_scanner: b.peek_scanner.clone(),
                    peek_start: b.peek_start,
                    peek_cursor: b.peek_cursor,
                    token: b.token.clone(),
                },
            ),
            None => None,
        };
        Lexer {
            source_text: self.source_text,
            scanner: self.scanner.clone(),
            filter: self.filter.clone(),
            recover: self.recover.clone(),
            buffer,
            parse_start: self.parse_start,
            token_start: self.token_start,
            cursor: self.cursor,
        }
    }

    /// Returns an iterator over the lexer's tokens together with their
    /// spans.
    pub fn iter_with_spans<'l>(&'l mut self) -> (r: IterWithSpans<'text, 'l, Sc>)
        ensures
            *r.lexer == *old(self),
            *final(self) == *final(r.lexer),
    {
        IterWithSpans { lexer: self }
    }
}

/// An iterator over lexer tokens together with their spans.
pub struct IterWithSpans<'text, 'l, Sc: Scanner> {
    /// The lexer.
    pub lexer: &'l mut Lexer<'text, Sc>,
}

impl<'text, 'l, Sc: Scanner> IterWithSpans<'text, 'l, Sc> {
    /// Returns the next token and its span.
    pub fn next(&mut self) -> (r: Option<(Sc::Token, Span)>)
        ensures
            r matches Some(x) ==> x.1 == enclosing(
                final(self).lexer.token_start,
                final(self).lexer.cursor,
            ),
            final(self).lexer.same_setup(*old(self).lexer),
            old(self).lexer.at_end() ==> r is None && *final(self).lexer == *old(self).lexer,
            !old(self).lexer.at_end() ==> (old(self).lexer.buffer matches Some(b) ==> r == Some(
                (b.token, enclosing(b.peek_start, b.peek_cursor)),
            ) && final(self).lexer.scanner == b.peek_scanner),
            r is Some ==> final(self).lexer.buffer is None,
            r is None ==> final(self).lexer.token_start == old(self).lexer.token_start
                && final(self).lexer.parse_start == old(self).lexer.parse_start,
            Sc::Token::obeys_eq_spec() && !old(self).lexer.at_end() && old(self).lexer.buffer is None
                ==> {
                let (sc, cur, res) = scan_unfiltered(
                    old(self).lexer.scanner,
                    old(self).lexer.source_text,
                    old(self).lexer.cursor,
                    old(self).lexer.filter,
                );
                &&& final(self).lexer.scanner == sc
                &&& final(self).lexer.cursor == cur
                &&& r == match res {
                    Some((start, t)) => Some((t, enclosing(start, cur))),
                    None => None::<(Sc::Token, Span)>,
                }
            },
    {
        match self.lexer.next() {
            Some(t) => {
                let span = self.lexer.token_span();
                Some((t, span))
            },
            None => None,
        }
    }
}

/// Whether `h` is an info highlight of `span` whose end message is `text`.
pub open spec fn labels(h: Highlight, span: Span, text: Seq<char>) -> bool {
    &&& h.span == span
    &&& h.start_message is None
    &&& h.end_message matches Some(m) && m@ == text
    &&& h.message_type == MessageType::Info
    &&& h.allow_omissions
}

/// Returns `label`, a space and the span in brackets.
fn span_label(label: &str, span: Span) -> (r: String)
    ensures
        r@ == label@ + " ("@ + span_text(span) + ")"@,
{
    let mut s = String::new();
    push_str(&mut s, label);
    push_str(&mut s, " (");
    push_span(&mut s, span);
    push_char(&mut s, ')');
    proof {
        reveal_strlit(")");
        assert(s@ =~= label@ + " ("@ + span_text(span) + ")"@);
    }
    s
}

impl<'text, Sc: Scanner> Lexer<'text, Sc> {
    /// Returns a display of the lexer's state: the text from the start of
    /// the parse to the cursor, with the last token, the parse, the cursor
    /// and the scanner written as `scanner_text`, and the token scanned
    /// ahead where there is one.
    pub fn state_display(&self, scanner_text: &str) -> (r: CodeDisplay)
        requires
            enclosing(self.parse_start, self.cursor).widen_ok(self.source_text),
        ensures
            r.message@ == "Lexer"@,
            r.message_type == MessageType::Note,
            r.code_id is None,
            r.color_enabled,
            r.notes@.len() == 0,
            r.span_displays@.len() == 1,
            r.span_displays@[0].span == enclosing(self.parse_start, self.cursor).widen_spec(
                self.source_text,
            ),
            r.span_displays@[0].notes@.len() == 0,
            labels(
                r.span_displays@[0].highlights@[0],
                enclosing(self.token_start, self.cursor),
                "token ("@ + span_text(enclosing(self.token_start, self.cursor)) + ")"@,
            ),
            labels(
                r.span_displays@[0].highlights@[1],
                enclosing(self.parse_start, self.cursor),
                "parse ("@ + span_text(enclosing(self.parse_start, self.cursor)) + ")"@,
            ),
            labels(
                r.span_displays@[0].highlights@[2],
                enclosing(self.cursor, self.cursor),
                "cursor ("@ + span_text(enclosing(self.cursor, self.cursor)) + "), scanner: "@
                    + scanner_text@,
            ),
            match self.buffer {
                Some(b) => if b.peek_start == b.peek_cursor {
                    r.span_displays@[0].highlights@.len() == 3
                } else {
                    &&& r.span_displays@[0].highlights@.len() == 4
                    &&& labels(
                        r.span_displays@[0].highlights@[3],
                        enclosing(b.peek_start, b.peek_cursor),
                        "peek ("@ + span_text(enclosing(b.peek_start, b.peek_cursor)) + ")"@,
                    )
                },
                None => r.span_displays@[0].highlights@.len() == 3,
            },
    {
        let token = self.token_span();
        let parse = self.parse_span();
        let at = Span::new_at(self.cursor);
        let mut cursor_text = span_label("cursor", at);
        push_str(&mut cursor_text, ", scanner: ");
        push_str(&mut cursor_text, scanner_text);
        proof {
            reveal_strlit("cursor");
            reveal_strlit(" (");
            reveal_strlit("cursor (");
            reveal_strlit(")");
            reveal_strlit(", scanner: ");
            reveal_strlit("), scanner: ");
            assert(cursor_text@ =~= "cursor ("@ + span_text(at) + "), scanner: "@ + scanner_text@);
        }
        let mut spans = SpanDisplay::new(self.source_text, parse).with_highlight(
            Highlight::new(token, span_label("token", token)),
        ).with_highlight(Highlight::new(parse, span_label("parse", parse))).with_highlight(
            Highlight::new(at, cursor_text),
        );
        match self.peek_token_span() {
            Some(span) => {
                spans = spans.with_highlight(Highlight::new(span, span_label("peek", span)));
            },
            None => {},
        }
        proof {
            reveal_strlit("token");
            reveal_strlit("parse");
            reveal_strlit("cursor");
            reveal_strlit("peek");
            reveal_strlit(" (");
            reveal_strlit(")");
            reveal_strlit("), scanner: ");
            reveal_strlit("Lexer");
            reveal_strlit("token (");
            reveal_strlit("parse (");
            reveal_strlit("cursor (");
            reveal_strlit("peek (");
            assert("token"@ + " ("@ =~= "token ("@);
            assert("parse"@ + " ("@ =~= "parse ("@);
            assert("cursor"@ + " ("@ =~= "cursor ("@);
            assert("peek"@ + " ("@ =~= "peek ("@);
        }
        CodeDisplay::new(String::from_str("Lexer")).with_color(true).with_note_type().with_span_display(
            spans,
        )
    }
}
} // verus!
