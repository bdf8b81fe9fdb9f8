//! Matching nested brackets in a token stream.
use vstd::prelude::*;
use smallvec::SmallVec;
use vstd::std_specs::cmp::PartialEqSpec;
use crate::error::delimit::MatchBracketError;
use crate::lexer::Lexer;
use crate::lexer::Scanner;
use crate::position::Pos;
use crate::span::Span;
use crate::span::enclosing;
use vstd::pervasive::strictly_cloned;

verus! {

/// A stack of open brackets, bottom first: for each run of equal open
/// brackets, the bracket's index and the length of the run. It is held in a
/// `SmallVec` of the `smallvec` crate.
#[verifier::external_body]
pub struct BracketStack {
    stack: SmallVec<[(usize, usize); 4]>,
}

/// What a stack of open brackets holds, bottom first.
pub uninterp spec fn stack_items(s: BracketStack) -> Seq<(usize, usize)>;

impl BracketStack {
    /// `SmallVec::with_capacity`: an empty stack. The crate panics where the
    /// capacity in bytes overflows, which the bound on `n` leaves out; what
    /// happens where memory runs out is not stated.
    #[verifier::external_body]
    pub(crate) fn with_capacity(n: usize) -> (r: BracketStack)
        requires
            n <= usize::MAX / 64,
        ensures
            stack_items(r) == Seq::<(usize, usize)>::empty(),
    {
        BracketStack { stack: SmallVec::with_capacity(n) }
    }

    /// `SmallVec::push`: the item is appended. The crate panics where the
    /// grown capacity in bytes overflows, which the bound on the length
    /// leaves out; what happens where memory runs out is not stated.
    #[verifier::external_body]
    pub(crate) fn push(&mut self, item: (usize, usize))
        requires
            stack_items(*old(self)).len() < usize::MAX / 64,
        ensures
            stack_items(*final(self)) == stack_items(*old(self)).push(item),
    {
        self.stack.push(item)
    }

    /// `SmallVec::pop`: the last item is removed and returned, if any.
    #[verifier::external_body]
    pub(crate) fn pop(&mut self) -> (r: Option<(usize, usize)>)
        ensures
            stack_items(*old(self)).len() == 0 ==> r is None && stack_items(*final(self))
                == stack_items(*old(self)),
            stack_items(*old(self)).len() > 0 ==> r == Some(stack_items(*old(self)).last())
                && stack_items(*final(self)) == stack_items(*old(self)).drop_last(),
    {
        self.stack.pop()
    }

    /// `SmallVec::is_empty`: whether the stack holds no item.
    #[verifier::external_body]
    pub(crate) fn is_empty(&self) -> (r: bool)
        ensures
            r == (stack_items(*self).len() == 0),
    {
        self.stack.is_empty()
    }
}

/// The index of the first of `tokens`, from index `i` on, that equals `t`.
pub open spec fn index_from<T: PartialEq>(tokens: Seq<T>, t: T, i: int) -> Option<int>
    decreases tokens.len() - i,
{
    if 0 <= i < tokens.len() {
        if tokens[i].eq_spec(&t) {
            Some(i)
        } else {
            index_from(tokens, t, i + 1)
        }
    } else {
        None
    }
}

/// The index found from `i` on is a valid index from `i` on, of a token
/// that equals `t`.
proof fn lemma_index_from<T: PartialEq>(tokens: Seq<T>, t: T, i: int)
    requires
        0 <= i,
    ensures
        index_from(tokens, t, i) matches Some(k) ==> i <= k < tokens.len() && tokens[k].eq_spec(&t),
    decreases tokens.len() - i,
{
    if 0 <= i < tokens.len() && !tokens[i].eq_spec(&t) {
        lemma_index_from(tokens, t, i + 1);
    }
}

/// Returns the index of the first of `tokens` that equals `t`, if any.
pub fn token_index<T: PartialEq>(tokens: &[T], t: &T) -> (r: Option<usize>)
    ensures
        r matches Some(i) ==> i < tokens@.len(),
        T::obeys_eq_spec() ==> match r {
            Some(i) => index_from(tokens@, *t, 0) == Some(i as int),
            None => index_from(tokens@, *t, 0) is None,
        },
{
    let mut i: usize = 0;
    while i < tokens.len()
        invariant
            i <= tokens@.len(),
            T::obeys_eq_spec() ==> index_from(tokens@, *t, 0) == index_from(tokens@, *t, i as int),
        decreases tokens@.len() - i,
    {
        if tokens[i] == *t {
            return Some(i);
        }
        i = i + 1;
    }
    None
}

/// What the matcher makes of one token.
#[derive(Debug, Clone, Copy, PartialEq, Eq, Structural)]
pub enum BracketStep {
    /// Go on to the next token.
    Continue,
    /// The token closes the first open bracket.
    Matched,
    /// The token is a close bracket with no open bracket before it.
    Unopened,
    /// The token closes another kind of bracket than the last one opened.
    Mismatch,
    /// The token ends the search before any open bracket was found.
    NoneFound,
}

/// The stack after an open bracket of kind `o`: the last run grows by one
/// where it is of that kind, else a new run starts.
pub open spec fn push_open(stack: Seq<(usize, usize)>, o: usize) -> Seq<(usize, usize)> {
    if stack.len() > 0 && stack.last().0 == o {
        stack.drop_last().push((o, (stack.last().1 + 1) as usize))
    } else {
        stack.push((o, 1))
    }
}

/// The stack after a close bracket of the last run's kind: the run shrinks
/// by one and goes where it is used up.
pub open spec fn pop_close(stack: Seq<(usize, usize)>) -> Seq<(usize, usize)> {
    if stack.last().1 > 1 {
        stack.drop_last().push((stack.last().0, (stack.last().1 - 1) as usize))
    } else {
        stack.drop_last()
    }
}

/// One step of the matcher: for a token that is the close bracket of kind
/// `close`, else the open bracket of kind `open`, else one on which the
/// abort predicate is `aborts`, the step's outcome and the stack after it.
pub open spec fn match_step(
    stack: Seq<(usize, usize)>,
    opened: bool,
    close: Option<usize>,
    open: Option<usize>,
    aborts: bool,
) -> (BracketStep, Seq<(usize, usize)>) {
    match close {
        Some(c) => if stack.len() == 0 {
            (BracketStep::Unopened, stack)
        } else if stack.last().0 != c {
            (BracketStep::Mismatch, stack.drop_last())
        } else if stack.len() == 1 && stack.last().1 == 1 {
            (BracketStep::Matched, stack.drop_last())
        } else {
            (BracketStep::Continue, pop_close(stack))
        },
        None => match open {
            Some(o) => (BracketStep::Continue, push_open(stack, o)),
            None => if aborts && !opened {
                (BracketStep::NoneFound, stack)
            } else {
                (BracketStep::Continue, stack)
            },
        },
    }
}

/// Whether every run of a stack holds at least one bracket.
pub open spec fn runs_nonempty(stack: Seq<(usize, usize)>) -> bool {
    forall|i: int| 0 <= i < stack.len() ==> 1 <= #[trigger] stack[i].1
}

/// Whether every run of a stack holds fewer than `bound` brackets.
pub open spec fn runs_below(stack: Seq<(usize, usize)>, bound: int) -> bool {
    forall|i: int| 0 <= i < stack.len() ==> #[trigger] stack[i].1 < bound
}

/// An open bracket followed by the close bracket of the same kind undoes
/// itself: after the pair the stack of open brackets is what it was, and
/// where no bracket was open the pair is the match.
pub proof fn lemma_open_then_close(stack: Seq<(usize, usize)>, opened: bool, kind: usize)
    requires
        runs_nonempty(stack),
        runs_below(stack, usize::MAX as int),
    ensures
        match_step(stack, opened, None, Some(kind), false).0 == BracketStep::Continue,
        match_step(match_step(stack, opened, None, Some(kind), false).1, true, Some(kind), None, false)
            == if stack.len() == 0 {
            (BracketStep::Matched, stack)
        } else {
            (BracketStep::Continue, stack)
        },
{
    let after_open = match_step(stack, opened, None, Some(kind), false).1;
    if stack.len() > 0 && stack.last().0 == kind {
        assert(pop_close(after_open) =~= stack);
    } else {
        assert(after_open.drop_last() =~= stack);
    }
}

/// What the matcher is handed for one token: its index among the close
/// brackets, its index among the open brackets, and whether the abort
/// predicate holds of it.
pub type MatchEvent = (Option<usize>, Option<usize>, bool);

/// The matcher run over a sequence of tokens: the outcome of the first step
/// that does not continue, with the index of its token, or `Continue` and
/// the length of the sequence where every step continues.
pub open spec fn match_run(stack: Seq<(usize, usize)>, opened: bool, events: Seq<MatchEvent>) -> (
    BracketStep,
    int,
)
    decreases events.len(),
{
    if events.len() == 0 {
        (BracketStep::Continue, 0)
    } else {
        let e = events[0];
        let (outcome, next) = match_step(stack, opened, e.0, e.1, e.2);
        if outcome == BracketStep::Continue {
            let rest = match_run(
                next,
                opened || (e.0 is None && e.1 is Some),
                events.drop_first(),
            );
            (rest.0, rest.1 + 1)
        } else {
            (outcome, 0)
        }
    }
}

/// The index and kind of the first open bracket of a sequence of tokens,
/// if any.
pub open spec fn first_open(events: Seq<MatchEvent>) -> Option<(int, usize)>
    decreases events.len(),
{
    if events.len() == 0 {
        None
    } else if events[0].0 is None && events[0].1 is Some {
        Some((0, events[0].1->0))
    } else {
        match first_open(events.drop_first()) {
            Some((j, k)) => Some((j + 1, k)),
            None => None,
        }
    }
}

/// The first open bracket is an event that is one: no close bracket, and
/// an open bracket of the kind found.
proof fn lemma_first_open_at(events: Seq<MatchEvent>)
    ensures
        first_open(events) matches Some((j, k)) ==> 0 <= j < events.len() && events[j].0 is None
            && events[j].1 == Some(k),
    decreases events.len(),
{
    if events.len() > 0 && !(events[0].0 is None && events[0].1 is Some) {
        lemma_first_open_at(events.drop_first());
    }
}

/// One more event leaves the first open bracket as it was, or makes it
/// the new event where there was none and the event is one.
proof fn lemma_first_open_push(events: Seq<MatchEvent>, e: MatchEvent)
    ensures
        first_open(events.push(e)) == if first_open(events) is Some {
            first_open(events)
        } else if e.0 is None && e.1 is Some {
            Some((events.len() as int, e.1->0))
        } else {
            None
        },
    decreases events.len(),
{
    let pushed = events.push(e);
    if events.len() == 0 {
        assert(pushed[0] == e);
        assert(pushed.drop_first() =~= Seq::<MatchEvent>::empty());
        assert(first_open(Seq::<MatchEvent>::empty()) is None);
    } else {
        assert(pushed[0] == events[0]);
        assert(pushed.drop_first() =~= events.drop_first().push(e));
        lemma_first_open_push(events.drop_first(), e);
        assert(events.drop_first().len() == events.len() - 1);
    }
}

/// The matcher's stack and whether it has seen an open bracket, after a
/// sequence of tokens.
pub open spec fn match_state(stack: Seq<(usize, usize)>, opened: bool, events: Seq<MatchEvent>) -> (
    Seq<(usize, usize)>,
    bool,
)
    decreases events.len(),
{
    if events.len() == 0 {
        (stack, opened)
    } else {
        let e = events[0];
        match_state(
            match_step(stack, opened, e.0, e.1, e.2).1,
            opened || (e.0 is None && e.1 is Some),
            events.drop_first(),
        )
    }
}

/// A close bracket that comes before any open bracket or abort token is
/// unopened: the search fails there.
pub proof fn lemma_close_first_unopened(events: Seq<MatchEvent>, k: int)
    requires
        0 <= k < events.len(),
        forall|i: int| 0 <= i < k ==> #[trigger] events[i] == (None::<usize>, None::<usize>, false),
        events[k].0 is Some,
    ensures
        match_run(Seq::empty(), false, events) == (BracketStep::Unopened, k),
    decreases k,
{
    if k > 0 {
        assert(events[0] == (None::<usize>, None::<usize>, false));
        let rest = events.drop_first();
        assert forall|i: int| 0 <= i < k - 1 implies #[trigger] rest[i] == (
            None::<usize>,
            None::<usize>,
            false,
        ) by {
            assert(rest[i] == events[i + 1]);
        }
        assert(rest[k - 1] == events[k]);
        lemma_close_first_unopened(rest, k - 1);
    }
}

/// Running the matcher one token further, after tokens on which it went
/// on: the outcome is the step from the state the tokens left.
proof fn lemma_run_push(
    stack: Seq<(usize, usize)>,
    opened: bool,
    events: Seq<MatchEvent>,
    e: MatchEvent,
)
    requires
        match_run(stack, opened, events) == (BracketStep::Continue, events.len() as int),
    ensures
        ({
            let state = match_state(stack, opened, events);
            let step = match_step(state.0, state.1, e.0, e.1, e.2);
            &&& match_run(stack, opened, events.push(e)) == if step.0 == BracketStep::Continue {
                (BracketStep::Continue, events.len() + 1 as int)
            } else {
                (step.0, events.len() as int)
            }
            &&& match_state(stack, opened, events.push(e)) == (
                step.1,
                state.1 || (e.0 is None && e.1 is Some),
            )
        }),
    decreases events.len(),
{
    let pushed = events.push(e);
    if events.len() == 0 {
        let step = match_step(stack, opened, e.0, e.1, e.2);
        let opened2 = opened || (e.0 is None && e.1 is Some);
        assert(pushed[0] == e);
        assert(pushed.drop_first() =~= Seq::<MatchEvent>::empty());
        assert(match_run(step.1, opened2, Seq::<MatchEvent>::empty()) == (
            BracketStep::Continue,
            0int,
        ));
        assert(match_state(step.1, opened2, Seq::<MatchEvent>::empty()) == (step.1, opened2));
    } else {
        let e0 = events[0];
        let first = match_step(stack, opened, e0.0, e0.1, e0.2);
        let opened2 = opened || (e0.0 is None && e0.1 is Some);
        assert(first.0 == BracketStep::Continue);
        assert(pushed[0] == e0);
        assert(pushed.drop_first() =~= events.drop_first().push(e));
        lemma_run_push(first.1, opened2, events.drop_first(), e);
    }
}

/// The matcher has seen an open bracket exactly where the tokens hold one.
proof fn lemma_state_opened(stack: Seq<(usize, usize)>, opened: bool, events: Seq<MatchEvent>)
    ensures
        match_state(stack, opened, events).1 == (opened || first_open(events) is Some),
    decreases events.len(),
{
    if events.len() > 0 {
        let e = events[0];
        lemma_state_opened(
            match_step(stack, opened, e.0, e.1, e.2).1,
            opened || (e.0 is None && e.1 is Some),
            events.drop_first(),
        );
    }
}

/// While brackets are open, a match comes at a close bracket of the kind
/// at the bottom of the stack.
proof fn lemma_match_closes_bottom(stack: Seq<(usize, usize)>, opened: bool, events: Seq<MatchEvent>)
    requires
        stack.len() > 0,
        runs_nonempty(stack),
        runs_below(stack, usize::MAX - events.len()),
    ensures
        match_run(stack, opened, events).0 == BracketStep::Matched ==> {
            let k = match_run(stack, opened, events).1;
            &&& 0 <= k < events.len()
            &&& events[k].0 == Some(stack[0].0)
        },
    decreases events.len(),
{
    if events.len() > 0 {
        let e = events[0];
        let (outcome, next) = match_step(stack, opened, e.0, e.1, e.2);
        if outcome == BracketStep::Continue {
            let opened2 = opened || (e.0 is None && e.1 is Some);
            assert(next.len() > 0 && next[0].0 == stack[0].0);
            assert(runs_nonempty(next));
            assert(runs_below(next, usize::MAX - events.drop_first().len()));
            lemma_match_closes_bottom(next, opened2, events.drop_first());
        }
    }
}

/// A search that matches pairs the first open bracket with a close bracket
/// of the same kind, found after it.
pub proof fn lemma_match_pairs_kinds(events: Seq<MatchEvent>)
    requires
        events.len() < usize::MAX,
    ensures
        match_run(Seq::empty(), false, events).0 == BracketStep::Matched ==> {
            let k = match_run(Seq::empty(), false, events).1;
            &&& first_open(events) matches Some((j, kind)) && j < k && events[k].0 == Some(kind)
            &&& 0 <= k < events.len()
        },
    decreases events.len(),
{
    if events.len() > 0 {
        let e = events[0];
        let empty = Seq::<(usize, usize)>::empty();
        let (outcome, next) = match_step(empty, false, e.0, e.1, e.2);
        if outcome == BracketStep::Continue {
            if e.0 is None && e.1 is Some {
                assert(next =~= seq![(e.1->0, 1usize)]);
                lemma_match_closes_bottom(next, true, events.drop_first());
            } else {
                assert(next =~= empty);
                lemma_match_pairs_kinds(events.drop_first());
            }
        }
    }
}

/// The state of a search for matching brackets: the stack of open
/// brackets and whether an open bracket has been seen.
pub struct BracketMatcher {
    stack: BracketStack,
    opened: bool,
}

impl BracketMatcher {
    /// The stack of open brackets, bottom first: for each run of equal
    /// open brackets, the bracket's index and the length of the run.
    pub closed spec fn runs(self) -> Seq<(usize, usize)> {
        stack_items(self.stack)
    }

    /// Whether an open bracket has been seen.
    pub closed spec fn has_opened(self) -> bool {
        self.opened
    }

    /// Returns a matcher that has seen no token, with room for `capacity`
    /// runs before its stack grows.
    pub fn new(capacity: usize) -> (r: Self)
        requires
            capacity <= usize::MAX / 64,
        ensures
            r.runs() == Seq::<(usize, usize)>::empty(),
            !r.has_opened(),
    {
        BracketMatcher { stack: BracketStack::with_capacity(capacity), opened: false }
    }

    /// Returns whether an open bracket has been seen.
    pub fn opened(&self) -> (r: bool)
        ensures
            r == self.has_opened(),
    {
        self.opened
    }

    /// Hands the matcher one token: `close` is its index among the close
    /// brackets, `open` its index among the open brackets, and `aborts`
    /// what the abort predicate says of it.
    pub fn step(&mut self, close: Option<usize>, open: Option<usize>, aborts: bool) -> (r:
        BracketStep)
        requires
            runs_nonempty(old(self).runs()),
            runs_below(old(self).runs(), usize::MAX as int),
            old(self).runs().len() < usize::MAX / 64,
        ensures
            (r, final(self).runs()) == match_step(
                old(self).runs(),
                old(self).has_opened(),
                close,
                open,
                aborts,
            ),
            final(self).has_opened() == (old(self).has_opened() || (close is None
                && open is Some)),
            runs_nonempty(final(self).runs()),
    {
        match close {
            Some(c) => {
                match self.stack.pop() {
                    None => BracketStep::Unopened,
                    Some((t, n)) => {
                        if t != c {
                            BracketStep::Mismatch
                        } else if n > 1 {
                            self.stack.push((t, n - 1));
                            BracketStep::Continue
                        } else if self.stack.is_empty() {
                            BracketStep::Matched
                        } else {
                            BracketStep::Continue
                        }
                    },
                }
            },
            None => match open {
                Some(o) => {
                    self.opened = true;
                    match self.stack.pop() {
                        None => {
                            self.stack.push((o, 1));
                        },
                        Some((t, n)) => {
                            if t != o {
                                self.stack.push((t, n));
                                self.stack.push((o, 1));
                            } else {
                                self.stack.push((t, n + 1));
                            }
                        },
                    }
                    BracketStep::Continue
                },
                None => if aborts && !self.opened {
                    BracketStep::NoneFound
                } else {
                    BracketStep::Continue
                },
            },
        }
    }
}

/// The result of a successful search for matching brackets.
pub struct BracketMatch<'text, Sc: Scanner> {
    /// The lexer whose next token is the open bracket.
    pub open: Lexer<'text, Sc>,
    /// The lexer whose next token is the close bracket.
    pub close: Lexer<'text, Sc>,
    /// The index of the brackets that were matched.
    pub index: usize,
}

/// The span of the token that a lexer has scanned ahead, or the empty span
/// at its cursor where it has none.
pub open spec fn ahead_span<'text, Sc: Scanner>(l: Lexer<'text, Sc>) -> Span {
    match l.buffer {
        Some(b) => enclosing(b.peek_start, b.peek_cursor),
        None => enclosing(l.cursor, l.cursor),
    }
}

/// Returns the span of the token that the lexer has scanned ahead, or the
/// empty span at its cursor where it has none.
fn ahead_span_of<'text, Sc: Scanner>(l: &Lexer<'text, Sc>) -> (r: Span)
    ensures
        r == ahead_span(*l),
{
    match &l.buffer {
        Some(b) => Span::new_enclosing(b.peek_start, b.peek_cursor),
        None => Span::new_at(l.cursor),
    }
}

/// Peeks at the next token, for the search: what `Lexer::peek` says of it,
/// in the terms of the search's trace.
fn peek_ahead<'text, Sc: Scanner>(lex: &mut Lexer<'text, Sc>) -> (r: Option<Sc::Token>)
    ensures
        Lexer::only_buffer_changed(*old(lex), *final(lex)),
        old(lex).at_end() ==> r is None && *final(lex) == *old(lex),
        r is None ==> (Sc::Token::obeys_eq_spec() ==> old(lex).stream_ended()),
        r is Some ==> {
            &&& !old(lex).at_end()
            &&& final(lex).buffer matches Some(b) && strictly_cloned(b.token, r->0)
            &&& Sc::Token::obeys_eq_spec() ==> Lexer::peeked(*old(lex), *final(lex))
        },
{
    let r = lex.peek();
    proof {
        reveal(Lexer::peeked);
    }
    r
}

/// Takes the token scanned ahead: the lexer becomes what `next` leaves.
pub(crate) fn take_ahead<'text, Sc: Scanner>(lex: &mut Lexer<'text, Sc>)
    requires
        !old(lex).at_end(),
        old(lex).buffer is Some,
    ensures
        *final(lex) == old(lex).taken(),
{
    let _ = lex.next();
}

/// Whether the result of a search is what the matcher gives on `events`,
/// the tokens it was handed: the outcome of the last token, or the end of
/// the tokens with no outcome, `start` being where the search began.
pub open spec fn search_result<'text, Sc: Scanner>(
    r: Result<BracketMatch<'text, Sc>, MatchBracketError>,
    events: Seq<MatchEvent>,
    start: Span,
) -> bool {
    let run = match_run(Seq::empty(), false, events);
    match r {
        Ok(m) => run == (BracketStep::Matched, events.len() - 1) && events.last().0 == Some(
            m.index,
        ),
        Err(MatchBracketError::Unopened { .. }) => run == (BracketStep::Unopened, events.len() - 1),
        Err(MatchBracketError::Mismatch { .. }) => run == (BracketStep::Mismatch, events.len() - 1),
        Err(MatchBracketError::NoneFound { expected_start }) => run == (
            BracketStep::NoneFound,
            events.len() - 1,
        ) || (run == (BracketStep::Continue, events.len() as int) && first_open(events) is None
            && expected_start == start),
        Err(MatchBracketError::Unclosed { .. }) => run == (
            BracketStep::Continue,
            events.len() as int,
        ) && first_open(events) is Some,
    }
}

/// Whether `e` is what the matcher is handed for token `t`: its index
/// among the close brackets, else its index among the open brackets, and,
/// for a token that is neither, what the abort predicate says of it.
pub open spec fn event_for<T: PartialEq, A: Fn(&T) -> bool>(
    e: MatchEvent,
    t: T,
    open: Seq<T>,
    close: Seq<T>,
    abort_pred: A,
) -> bool {
    let c = index_from(close, t, 0);
    let o = index_from(open, t, 0);
    &&& match c {
        Some(i) => e.0 == Some(i as usize) && e.1 is None && !e.2,
        None => match o {
            Some(i) => e.0 is None && e.1 == Some(i as usize) && !e.2,
            None => e.0 is None && e.1 is None && abort_pred.ensures((&t,), e.2),
        },
    }
}

/// Whether the search handed the matcher `events` for the tokens `toks`,
/// each a clone of the token scanned ahead by the lexer of the same index
/// in `peeks`: the first of these is `lexer` after a peek, and each other
/// one is the one before it after taking its token, which moved the cursor
/// forward, and a peek.
#[verifier::opaque]
pub open spec fn search_trace<'text, Sc: Scanner, A: Fn(&Sc::Token) -> bool>(
    lexer: Lexer<'text, Sc>,
    peeks: Seq<Lexer<'text, Sc>>,
    toks: Seq<Sc::Token>,
    events: Seq<MatchEvent>,
    open: Seq<Sc::Token>,
    close: Seq<Sc::Token>,
    abort_pred: A,
) -> bool {
    &&& peeks.len() == toks.len()
    &&& toks.len() == events.len()
    &&& peeks.len() > 0 ==> Lexer::peeked(lexer, peeks[0])
    &&& forall|i: int|
        0 < i < peeks.len() ==> Lexer::peeked(peeks[i - 1].taken(), #[trigger] peeks[i])
            && peeks[i - 1].cursor.byte < peeks[i - 1].taken().cursor.byte
    &&& forall|i: int|
        0 <= i < peeks.len() ==> strictly_cloned(peeks[i].buffer->0.token, #[trigger] toks[i])
    &&& forall|i: int|
        0 <= i < peeks.len() ==> event_for(#[trigger] events[i], toks[i], open, close, abort_pred)
}

/// Whether the tokens after the traced ones ran out: no token follows
/// the lexer that took the last one (or `lexer`, where none was traced),
/// or taking the last one did not move the cursor forward.
pub open spec fn search_ran_out<'text, Sc: Scanner>(
    lexer: Lexer<'text, Sc>,
    peeks: Seq<Lexer<'text, Sc>>,
) -> bool {
    if peeks.len() == 0 {
        lexer.stream_ended()
    } else {
        let last = peeks.last().taken();
        last.cursor.byte <= peeks.last().cursor.byte || last.stream_ended()
    }
}

/// Whether `o` is a copy of the lexer `l`, its scanned-ahead token cloned.
pub open spec fn copy_of<'text, Sc: Scanner>(o: Lexer<'text, Sc>, l: Lexer<'text, Sc>) -> bool {
    &&& o.source_text == l.source_text
    &&& o.parse_start == l.parse_start
    &&& o.token_start == l.token_start
    &&& o.cursor == l.cursor
    &&& o.buffer is Some
    &&& l.buffer is Some
    &&& o.buffer->0.peek_start == l.buffer->0.peek_start
    &&& o.buffer->0.peek_cursor == l.buffer->0.peek_cursor
    &&& strictly_cloned(l.buffer->0.token, o.buffer->0.token)
}

/// Whether the search that gave `r` went as traced: the matcher's outcome
/// on the traced tokens is `r`, the tokens ran out where the matcher went
/// on to the end, and a match pairs the open bracket of the first open
/// lexer with the close bracket of the last traced one, both of the kind
/// `index`.
pub open spec fn search_traced<'text, Sc: Scanner>(
    r: Result<BracketMatch<'text, Sc>, MatchBracketError>,
    lexer: Lexer<'text, Sc>,
    peeks: Seq<Lexer<'text, Sc>>,
    toks: Seq<Sc::Token>,
    events: Seq<MatchEvent>,
    open: Seq<Sc::Token>,
    close: Seq<Sc::Token>,
) -> bool {
    &&& search_result(r, events, enclosing(lexer.cursor, lexer.cursor))
    &&& match_run(Seq::empty(), false, events).0 == BracketStep::Continue ==> search_ran_out(
        lexer,
        peeks,
    )
    &&& r matches Ok(m) ==> {
        let j = (first_open(events)->0).0;
        &&& first_open(events) is Some
        &&& 0 <= j < events.len() - 1
        &&& m.close == peeks.last()
        &&& copy_of(m.open, peeks[j])
        &&& m.index < close.len()
        &&& m.index < open.len()
        &&& close[m.index as int].eq_spec(&toks.last())
        &&& open[m.index as int].eq_spec(&toks[j])
    }
}

/// What a search for matching brackets from `lexer` may give: at the end
/// of the text, no open bracket; on a match, lexers whose next tokens are
/// the matched brackets, the open one first; and always the outcome of the
/// matcher on the events of the tokens the search went through, tied to
/// the scanned tokens where token equality obeys its specification.
pub open spec fn search_outcome<'text, Sc: Scanner, A: Fn(&Sc::Token) -> bool>(
    lexer: Lexer<'text, Sc>,
    open_tokens: Seq<Sc::Token>,
    close_tokens: Seq<Sc::Token>,
    abort_pred: A,
    r: Result<BracketMatch<'text, Sc>, MatchBracketError>,
) -> bool {
    &&& lexer.at_end() ==> r == Err::<BracketMatch<'text, Sc>, MatchBracketError>(
        MatchBracketError::NoneFound { expected_start: enclosing(lexer.cursor, lexer.cursor) },
    )
    &&& r matches Ok(m) ==> {
        &&& m.index < close_tokens.len()
        &&& m.open.buffer is Some
        &&& m.close.buffer is Some
        &&& !m.open.at_end()
        &&& !m.close.at_end()
        &&& m.open.source_text == lexer.source_text
        &&& m.close.same_setup(lexer)
        &&& lexer.cursor.byte <= m.open.cursor.byte < m.close.cursor.byte
    }
    &&& exists|events: Seq<MatchEvent>|
        #![trigger match_run(Seq::empty(), false, events)]
        search_result(r, events, enclosing(lexer.cursor, lexer.cursor))
    &&& Sc::Token::obeys_eq_spec() ==> exists|
        peeks: Seq<Lexer<'text, Sc>>,
        toks: Seq<Sc::Token>,
        events: Seq<MatchEvent>,
    |
        #![trigger search_trace(lexer, peeks, toks, events, open_tokens, close_tokens, abort_pred)]
        search_trace(lexer, peeks, toks, events, open_tokens, close_tokens, abort_pred)
            && search_traced(r, lexer, peeks, toks, events, open_tokens, close_tokens)
}

/// Searches the tokens from the lexer's cursor on for an open bracket and
/// the close bracket that matches it, brackets of each kind nesting within
/// each other. `open_tokens[i]` and `close_tokens[i]` are the brackets of
/// kind `i`; a token on which `abort_pred` holds ends the search where it
/// comes before any open bracket.
///
/// The search also ends where the scanner hands out a token without
/// moving the cursor forward: the text after it is then treated as ended.
#[verifier::rlimit(40)]
pub fn match_nested_brackets<'text, Sc: Scanner, A: Fn(&Sc::Token) -> bool>(
    lexer: Lexer<'text, Sc>,
    open_tokens: &[Sc::Token],
    close_tokens: &[Sc::Token],
    abort_pred: A,
) -> (r: Result<BracketMatch<'text, Sc>, MatchBracketError>)
    requires
        forall|t: &Sc::Token| abort_pred.requires((t,)),
        open_tokens.len() <= usize::MAX / 64,
        lexer.source_text.bytes().len() < usize::MAX / 64,
    ensures
        search_outcome(lexer, open_tokens@, close_tokens@, abort_pred, r),
{
    let mut lex = lexer;
    let text_len = lex.source_text.len();
    let start_span = Span::new_at(lex.cursor_pos());
    let mut open_lexer: Option<Lexer<'text, Sc>> = None;
    let mut matcher = BracketMatcher::new(open_tokens.len());
    let ghost mut events: Seq<MatchEvent> = Seq::empty();
    let ghost mut peeks: Seq<Lexer<'text, Sc>> = Seq::empty();
    let ghost mut toks: Seq<Sc::Token> = Seq::empty();
    let n_open = open_tokens.len();
    let n_close = close_tokens.len();
    proof {
        reveal(search_trace);
    }
    loop
        invariant_except_break
            lexer.cursor.byte <= lex.cursor.byte,
            runs_below(matcher.runs(), lex.cursor.byte - lexer.cursor.byte + 1),
            matcher.runs().len() <= lex.cursor.byte - lexer.cursor.byte,
            lexer.at_end() ==> lex == lexer,
            open_lexer matches Some(o) ==> o.cursor.byte < lex.cursor.byte,
            peeks.len() == 0 ==> lex == lexer,
            peeks.len() > 0 ==> lex == peeks.last().taken() && peeks.last().cursor.byte
                < lex.cursor.byte,
            events.len() <= lex.cursor.byte - lexer.cursor.byte,
        invariant
            lex.same_setup(lexer),
            text_len == lex.source_text.bytes().len(),
            text_len < usize::MAX / 64,
            start_span == enclosing(lexer.cursor, lexer.cursor),
            runs_nonempty(matcher.runs()),
            matcher.runs().len() > 0 ==> matcher.has_opened(),
            open_lexer is Some <==> matcher.has_opened(),
            open_lexer matches Some(o) ==> {
                &&& o.buffer is Some
                &&& !o.at_end()
                &&& o.source_text == lexer.source_text
                &&& lexer.cursor.byte <= o.cursor.byte
            },
            lexer.at_end() ==> open_lexer is None,
            forall|t: &Sc::Token| abort_pred.requires((t,)),
            match_run(Seq::empty(), false, events) == (BracketStep::Continue, events.len() as int),
            match_state(Seq::empty(), false, events) == (matcher.runs(), matcher.has_opened()),
            peeks.len() == events.len(),
            toks.len() == events.len(),
            Sc::Token::obeys_eq_spec() ==> search_trace(
                lexer,
                peeks,
                toks,
                events,
                open_tokens@,
                close_tokens@,
                abort_pred,
            ),
            open_lexer matches Some(o) ==> first_open(events) is Some && copy_of(
                o,
                peeks[(first_open(events)->0).0],
            ),
            open_lexer is None ==> first_open(events) is None,
            n_open == open_tokens@.len(),
            n_close == close_tokens@.len(),
        ensures
            match_run(Seq::empty(), false, events) == (BracketStep::Continue, events.len() as int),
            match_state(Seq::empty(), false, events).1 == matcher.has_opened(),
            open_lexer is Some <==> matcher.has_opened(),
            open_lexer matches Some(o) ==> {
                &&& o.buffer is Some
                &&& !o.at_end()
                &&& o.source_text == lexer.source_text
                &&& lexer.cursor.byte <= o.cursor.byte
            },
            lexer.at_end() ==> open_lexer is None,
            Sc::Token::obeys_eq_spec() ==> search_ran_out(lexer, peeks),
        decreases usize::MAX - lex.cursor.byte,
    {
        let ghost pre = lex;
        let tok = match peek_ahead(&mut lex) {
            Some(t) => t,
            None => {
                break ;
            },
        };
        let close_idx = token_index(close_tokens, &tok);
        let open_idx = match close_idx {
            Some(_) => None,
            None => token_index(open_tokens, &tok),
        };
        let aborts = match (close_idx, open_idx) {
            (None, None) => abort_pred(&tok),
            _ => false,
        };
        proof {
            lemma_first_open_push(events, (close_idx, open_idx, aborts));
            lemma_first_open_at(events);
        }
        if open_idx.is_some() && close_idx.is_none() && open_lexer.is_none() {
            open_lexer = Some(lex.snapshot());
        }
        let step = matcher.step(close_idx, open_idx, aborts);
        proof {
            let e = (close_idx, open_idx, aborts);
            lemma_run_push(Seq::empty(), false, events, e);
            if Sc::Token::obeys_eq_spec() {
                assert(event_for(e, tok, open_tokens@, close_tokens@, abort_pred));
                assert(Lexer::peeked(pre, lex)) by {
                    reveal(Lexer::peeked);
                }
                lemma_trace_push(
                    lexer,
                    peeks,
                    toks,
                    events,
                    open_tokens@,
                    close_tokens@,
                    abort_pred,
                    pre,
                    lex,
                    tok,
                    e,
                );
            }
            events = events.push(e);
            peeks = peeks.push(lex);
            toks = toks.push(tok);
        }
        match step {
            BracketStep::Continue => {},
            BracketStep::Matched => {
                let open = open_lexer.unwrap();
                let index = close_idx.unwrap();
                let r = Ok(BracketMatch { open, close: lex, index });
                proof {
                    if Sc::Token::obeys_eq_spec() {
                        lemma_matched_traced(
                            r,
                            lexer,
                            peeks,
                            toks,
                            events,
                            open_tokens@,
                            close_tokens@,
                            abort_pred,
                        );
                    }
                }
                return r;
            },
            BracketStep::Unopened => {
                return Err(MatchBracketError::Unopened { found_end: ahead_span_of(&lex) });
            },
            BracketStep::Mismatch => {
                let open = open_lexer.unwrap();
                return Err(
                    MatchBracketError::Mismatch {
                        found_start: ahead_span_of(&open),
                        found_end: ahead_span_of(&lex),
                    },
                );
            },
            BracketStep::NoneFound => {
                return Err(MatchBracketError::NoneFound { expected_start: ahead_span_of(&lex) });
            },
        }
        let before = lex.cursor.byte;
        take_ahead(&mut lex);
        if lex.cursor.byte <= before {
            break ;
        }
    }
    proof {
        lemma_state_opened(Seq::empty(), false, events);
    }
    match open_lexer {
        None => Err(MatchBracketError::NoneFound { expected_start: start_span }),
        Some(o) => Err(MatchBracketError::Unclosed { found_start: ahead_span_of(&o) }),
    }
}

/// A match pairs the first open bracket with the last token, a close
/// bracket of the same kind, found after it.
proof fn lemma_match_traced<T: PartialEq, A: Fn(&T) -> bool>(
    events: Seq<MatchEvent>,
    last: T,
    first: T,
    open: Seq<T>,
    close: Seq<T>,
    abort_pred: A,
    index: usize,
)
    requires
        events.len() < usize::MAX,
        events.len() > 0,
        open.len() <= usize::MAX,
        close.len() <= usize::MAX,
        match_run(Seq::empty(), false, events) == (BracketStep::Matched, events.len() - 1),
        events.last().0 == Some(index),
        first_open(events) is Some,
        event_for(events.last(), last, open, close, abort_pred),
        event_for(events[(first_open(events)->0).0], first, open, close, abort_pred),
    ensures
        0 <= (first_open(events)->0).0 < events.len() - 1,
        index < close.len(),
        index < open.len(),
        close[index as int].eq_spec(&last),
        open[index as int].eq_spec(&first),
{
    lemma_match_pairs_kinds(events);
    lemma_first_open_at(events);
    lemma_index_from(close, last, 0);
    lemma_index_from(close, first, 0);
    lemma_index_from(open, first, 0);
}

/// A match found on traced tokens went as traced.
proof fn lemma_matched_traced<'text, Sc: Scanner, A: Fn(&Sc::Token) -> bool>(
    r: Result<BracketMatch<'text, Sc>, MatchBracketError>,
    lexer: Lexer<'text, Sc>,
    peeks: Seq<Lexer<'text, Sc>>,
    toks: Seq<Sc::Token>,
    events: Seq<MatchEvent>,
    open: Seq<Sc::Token>,
    close: Seq<Sc::Token>,
    abort_pred: A,
)
    requires
        search_trace(lexer, peeks, toks, events, open, close, abort_pred),
        events.len() < usize::MAX,
        events.len() > 0,
        open.len() <= usize::MAX,
        close.len() <= usize::MAX,
        match_run(Seq::empty(), false, events) == (BracketStep::Matched, events.len() - 1),
        r matches Ok(m) && m.close == peeks.last() && events.last().0 == Some(m.index)
            && first_open(events) is Some && copy_of(m.open, peeks[(first_open(events)->0).0]),
    ensures
        search_traced(r, lexer, peeks, toks, events, open, close),
{
    reveal(search_trace);
    let n = events.len() - 1;
    let j = (first_open(events)->0).0;
    lemma_first_open_at(events);
    lemma_match_pairs_kinds(events);
    assert(event_for(events[n], toks[n], open, close, abort_pred));
    assert(event_for(events[j], toks[j], open, close, abort_pred));
    lemma_match_traced(events, toks[n], toks[j], open, close, abort_pred, r->Ok_0.index);
}

/// Tracing one more token: `next` is the lexer after a peek from where
/// the traced ones left off, and `tok` a clone of its token.
#[verifier::rlimit(40)]
proof fn lemma_trace_push<'text, Sc: Scanner, A: Fn(&Sc::Token) -> bool>(
    lexer: Lexer<'text, Sc>,
    peeks: Seq<Lexer<'text, Sc>>,
    toks: Seq<Sc::Token>,
    events: Seq<MatchEvent>,
    open: Seq<Sc::Token>,
    close: Seq<Sc::Token>,
    abort_pred: A,
    pre: Lexer<'text, Sc>,
    next: Lexer<'text, Sc>,
    tok: Sc::Token,
    e: MatchEvent,
)
    requires
        search_trace(lexer, peeks, toks, events, open, close, abort_pred),
        peeks.len() == 0 ==> pre == lexer,
        peeks.len() > 0 ==> pre == peeks.last().taken() && peeks.last().cursor.byte
            < pre.cursor.byte,
        Lexer::peeked(pre, next),
        next.buffer matches Some(b) && strictly_cloned(b.token, tok),
        event_for(e, tok, open, close, abort_pred),
    ensures
        search_trace(lexer, peeks.push(next), toks.push(tok), events.push(e), open, close, abort_pred),
{
    reveal(search_trace);
    let p2 = peeks.push(next);
    let t2 = toks.push(tok);
    let e2 = events.push(e);
    assert forall|i: int| 0 < i < p2.len() implies Lexer::peeked(
        p2[i - 1].taken(),
        #[trigger] p2[i],
    ) && p2[i - 1].cursor.byte < p2[i - 1].taken().cursor.byte by {
        assert(p2[i - 1] == peeks[i - 1]);
        if i < peeks.len() {
            assert(p2[i] == peeks[i]);
        }
    }
    assert forall|i: int| 0 <= i < p2.len() implies strictly_cloned(
        p2[i].buffer->0.token,
        #[trigger] t2[i],
    ) by {
        if i < peeks.len() {
            assert(p2[i] == peeks[i]);
            assert(t2[i] == toks[i]);
        }
    }
    assert forall|i: int| 0 <= i < p2.len() implies event_for(
        #[trigger] e2[i],
        t2[i],
        open,
        close,
        abort_pred,
    ) by {
        if i < peeks.len() {
            assert(e2[i] == events[i]);
            assert(t2[i] == toks[i]);
        }
    }
    if peeks.len() > 0 {
        assert(p2[0] == peeks[0]);
    }
}

} // verus!
