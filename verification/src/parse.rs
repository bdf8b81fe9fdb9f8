//! The delimited and repeating parsers: brackets with error recovery,
//! bounded and delimited lists, and interspersed repetition. Each runs the
//! user's parsers (closures from a lexer and a parse context to a parse
//! result) and hands errors to the context through the user's
//! `send_error`; the decisions are those of the step functions of
//! `combinator`.
use vstd::prelude::*;
use vstd::pervasive::strictly_cloned;
use crate::bracket::BracketMatch;
use crate::bracket::match_nested_brackets;
use crate::bracket::search_outcome;
use crate::bracket::take_ahead;
use crate::bracket::MatchEvent;
use crate::bracket::search_result;
use crate::bracket::match_run;
use crate::bracket::token_index;
use crate::combinator::bracket_tokens_valid;
use crate::combinator::ListAction;
use crate::combinator::ListEvent;
use crate::combinator::ListPeek;
use crate::combinator::ListPhase;
use crate::combinator::ListState;
use crate::combinator::TrailingItem;
use crate::combinator::IntersperseAction;
use crate::combinator::IntersperseEvent;
use crate::combinator::IntersperseState;
use crate::combinator::UntilAction;
use crate::combinator::UntilEvent;
use crate::combinator::UntilState;
use crate::combinator::UntilItem;
use crate::combinator::intersperse_bounds;
use crate::combinator::intersperse_step;
use crate::combinator::intersperse_step_spec;
use crate::combinator::intersperse_wf;
use crate::combinator::intersperse_until_step;
use crate::combinator::until_high;
use crate::combinator::until_step_spec;
use crate::combinator::until_wf;
use crate::combinator::lemma_intersperse_counts;
use crate::combinator::lemma_until_counts;
use crate::combinator::delimited_list_step;
use crate::combinator::delimited_list_step_spec;
use crate::combinator::list_increments;
use crate::combinator::list_step;
use crate::combinator::list_step_spec;
use crate::combinator::list_wf;
use crate::combinator::lemma_list_counts;
use crate::combinator::lemma_delimited_list_counts;
use crate::combinator::one;
use crate::combinator::empty;
use crate::error::delimit::ParseBoundaryError;
use crate::error::delimit::RepeatCountError;
use crate::error::lexer::RecoverError;
use crate::error::ParseError;
use crate::error::delimit::MatchBracketError;
use crate::lexer::Lexer;
use crate::lexer::Scanner;
use crate::result::ParseResult;
use crate::result::Success;
use crate::span::enclosing;

verus! {

/// The lexer for the text between matched brackets: after the open
/// bracket, with a new parse started there.
pub open spec fn inner_lexer<'t, Sc: Scanner>(m: BracketMatch<'t, Sc>) -> Lexer<'t, Sc> {
    let t = m.open.taken();
    Lexer { parse_start: t.cursor, token_start: t.cursor, ..t }
}

/// What a bracketed parse gives after the search gave `m`: the search's
/// error; or the inner parse's value with the index of the brackets, the
/// lexer after the close bracket; or, where the inner parse failed and the
/// context took its error, a default value in its place; or the error the
/// context handed back.
pub open spec fn bracket_outcome<'t, Sc: Scanner, X: Default, Cx: Clone, F, S>(
    ctx: Cx,
    center: F,
    send_error: S,
    m: Result<BracketMatch<'t, Sc>, MatchBracketError>,
    r: ParseResult<'t, Sc, (X, usize)>,
) -> bool where
    F: FnMut(Lexer<'t, Sc>, Cx) -> ParseResult<'t, Sc, X>,
    S: Fn(&Cx, ParseError<Sc::Token>) -> Result<(), ParseError<Sc::Token>>,
 {
    match m {
        Err(e) => r == Err::<Success<'t, Sc, (X, usize)>, Box<ParseError<Sc::Token>>>(
            Box::new(ParseError::MatchBracket(e)),
        ),
        Ok(bm) => exists|c: Cx, inner: ParseResult<'t, Sc, X>|
            #![trigger call_ensures(center, (inner_lexer(bm), c), inner)]
            {
                &&& strictly_cloned(ctx, c)
                &&& call_ensures(center, (inner_lexer(bm), c), inner)
                &&& match inner {
                    Ok(s) => r == Ok::<Success<'t, Sc, (X, usize)>, Box<ParseError<Sc::Token>>>(
                        Success { lexer: bm.close.taken(), value: (s.value, bm.index) },
                    ),
                    Err(f) => exists|sent: Result<(), ParseError<Sc::Token>>|
                        #![trigger call_ensures(send_error, (&ctx, *f), sent)]
                        {
                            &&& call_ensures(send_error, (&ctx, *f), sent)
                            &&& match sent {
                                Ok(()) => r matches Ok(s) && s.lexer == bm.close.taken()
                                    && s.value.1 == bm.index && call_ensures(
                                    X::default,
                                    (),
                                    s.value.0,
                                ),
                                Err(e) => r == Err::<
                                    Success<'t, Sc, (X, usize)>,
                                    Box<ParseError<Sc::Token>>,
                                >(Box::new(e)),
                            }
                        },
                }
            },
    }
}

/// Parses `center` between a pair of matching brackets, found by
/// `match_nested_brackets`: `open_tokens[i]` pairs with `close_tokens[i]`,
/// and the value comes with the index of the pair. Where `center` fails,
/// its error goes to the context, and if the context takes it the parse
/// goes on after the close bracket with the default value; the close
/// bracket is the recovery point, as `bracket_step` decides.
pub fn bracket_default_index<'t, Sc: Scanner, X: Default, Cx: Clone, F, S, A>(
    lexer: Lexer<'t, Sc>,
    ctx: &Cx,
    open_tokens: &[Sc::Token],
    center: F,
    close_tokens: &[Sc::Token],
    abort_pred: A,
    send_error: S,
) -> (r: ParseResult<'t, Sc, (X, usize)>) where
    F: FnMut(Lexer<'t, Sc>, Cx) -> ParseResult<'t, Sc, X>,
    S: Fn(&Cx, ParseError<Sc::Token>) -> Result<(), ParseError<Sc::Token>>,
    A: Fn(&Sc::Token) -> bool,

    requires
        bracket_tokens_valid(open_tokens@, close_tokens@),
        forall|t: &Sc::Token| abort_pred.requires((t,)),
        forall|l: Lexer<'t, Sc>, c: Cx| center.requires((l, c)),
        forall|c: &Cx, e: ParseError<Sc::Token>| send_error.requires((c, e)),
        open_tokens.len() <= usize::MAX / 64,
        lexer.source_text.bytes().len() < usize::MAX / 64,
    ensures
        exists|m: Result<BracketMatch<'t, Sc>, MatchBracketError>|
            #![trigger search_outcome(lexer, open_tokens@, close_tokens@, abort_pred, m)]
            search_outcome(lexer, open_tokens@, close_tokens@, abort_pred, m) && bracket_outcome(
                *ctx,
                center,
                send_error,
                m,
                r,
            ),
{
    let ghost center0 = center;
    let mut center = center;
    let found = match_nested_brackets(lexer, open_tokens, close_tokens, abort_pred);
    let ghost m = found;
    let r = match found {
        Err(e) => Err(Box::new(ParseError::MatchBracket(e))),
        Ok(bm) => {
            let ghost bm0 = bm;
            let BracketMatch { open, close, index } = bm;
            let mut open = open;
            let mut close = close;
            take_ahead(&mut open);
            take_ahead(&mut close);
            let inner = open.into_sublexer();
            let c = ctx.clone();
            let res = center(inner, c);
            proof {
                assert(inner == inner_lexer(bm0));
                assert(call_ensures(center0, (inner_lexer(bm0), c), res));
            }
            match res {
                Ok(s) => Ok(Success { lexer: close, value: (s.value, index) }),
                Err(f) => {
                    let ghost f0 = *f;
                    let sent = send_error(ctx, *f);
                    proof {
                        assert(call_ensures(send_error, (ctx, f0), sent));
                    }
                    match sent {
                        Ok(()) => {
                            let d = X::default;
                            let v = d();
                            Ok(Success { lexer: close, value: (v, index) })
                        },
                        Err(e) => Err(Box::new(e)),
                    }
                },
            }
        },
    };
    proof {
        assert(search_outcome(lexer, open_tokens@, close_tokens@, abort_pred, m));
        assert(bracket_outcome(*ctx, center0, send_error, m, r));
    }
    r
}

/// Whether `x` is a value that `parser` gave, or a default value.
pub open spec fn item_from<'t, Sc: Scanner, X: Default, Cx, F>(parser: F, x: X) -> bool where
    F: FnMut(Lexer<'t, Sc>, Cx) -> ParseResult<'t, Sc, X>,
 {
    ||| exists|l: Lexer<'t, Sc>, c: Cx, s: Success<'t, Sc, X>|
        #![trigger call_ensures(parser, (l, c), Ok::<Success<'t, Sc, X>, Box<ParseError<Sc::Token>>>(s))]
        call_ensures(parser, (l, c), Ok::<Success<'t, Sc, X>, Box<ParseError<Sc::Token>>>(s))
            && s.value == x
    ||| call_ensures(X::default, (), x)
}

/// Whether `e` is an error that `parser` gave, one that `send_error`
/// handed back, or one that the repetition makes itself: a parse that
/// stopped short of a separator or abort token, a missing separator, or a
/// recovery that found no recovery point.
pub open spec fn error_from<'t, Sc: Scanner, X, Cx, F, S>(
    parser: F,
    send_error: S,
    e: ParseError<Sc::Token>,
) -> bool where
    F: FnMut(Lexer<'t, Sc>, Cx) -> ParseResult<'t, Sc, X>,
    S: Fn(&Cx, ParseError<Sc::Token>) -> Result<(), ParseError<Sc::Token>>,
 {
    ||| exists|l: Lexer<'t, Sc>, c: Cx, b: Box<ParseError<Sc::Token>>|
        #![trigger call_ensures(parser, (l, c), Err::<Success<'t, Sc, X>, Box<ParseError<Sc::Token>>>(b))]
        call_ensures(parser, (l, c), Err::<Success<'t, Sc, X>, Box<ParseError<Sc::Token>>>(b))
            && *b == e
    ||| exists|c: &Cx, e0: ParseError<Sc::Token>|
        #![trigger call_ensures(send_error, (c, e0), Err::<(), ParseError<Sc::Token>>(e))]
        call_ensures(send_error, (c, e0), Err::<(), ParseError<Sc::Token>>(e))
    ||| e matches ParseError::ParseBoundary(_)
    ||| e matches ParseError::UnexpectedToken(_)
    ||| e == ParseError::<Sc::Token>::Recover(RecoverError)
}

/// The step of a list parse, or of a delimited list parse.
pub open spec fn step_of(delimited: bool, s: ListState, e: ListEvent) -> (ListState, ListAction) {
    if delimited {
        delimited_list_step_spec(s, e)
    } else {
        list_step_spec(s, e)
    }
}

/// Whether the event answers what the state waits for.
pub open spec fn list_fits(p: ListPhase, e: ListEvent) -> bool {
    match p {
        ListPhase::Start => e == ListEvent::Begin,
        ListPhase::AwaitPeek | ListPhase::AwaitPeekAfter => e is Peeked,
        ListPhase::AwaitItem | ListPhase::AwaitAbortedItem => e == ListEvent::Item(true)
            || e == ListEvent::ItemRecoverable,
        ListPhase::AwaitTrailing => e == ListEvent::Trailing(TrailingItem::Value) || e
            == ListEvent::Trailing(TrailingItem::Nothing),
        ListPhase::AwaitEmpty | ListPhase::AwaitEmptyBefore | ListPhase::AwaitEmptyAborting => e is Empty,
        ListPhase::AwaitSeparator => e == ListEvent::Separator(true) || e
            == ListEvent::SeparatorRecoverable,
        ListPhase::AwaitItemSent | ListPhase::AwaitSeparatorSent | ListPhase::AwaitAbortedSent
        | ListPhase::AwaitSent => e is Sent,
        ListPhase::AwaitItemRecovery | ListPhase::AwaitSeparatorRecovery => e is Recovered,
        ListPhase::AwaitAdded => e == ListEvent::Added,
        ListPhase::Finished => false,
    }
}

/// Whether the phase belongs to a list parse that is not delimited.
pub open spec fn plain_phase(p: ListPhase) -> bool {
    !(p == ListPhase::AwaitEmptyBefore || p == ListPhase::AwaitEmptyAborting || p
        == ListPhase::AwaitAbortedItem || p == ListPhase::AwaitAbortedSent || p
        == ListPhase::AwaitAdded)
}

/// Where a list parse stands, ordered so that every step that adds no item
/// goes down.
pub open spec fn list_rank(p: ListPhase) -> int {
    match p {
        ListPhase::Start => 21,
        ListPhase::AwaitPeekAfter => 20,
        ListPhase::AwaitEmpty => 19,
        ListPhase::AwaitSeparator => 18,
        ListPhase::AwaitSeparatorSent => 17,
        ListPhase::AwaitSeparatorRecovery => 16,
        ListPhase::AwaitPeek => 15,
        ListPhase::AwaitEmptyBefore => 14,
        ListPhase::AwaitEmptyAborting => 13,
        ListPhase::AwaitItem => 12,
        ListPhase::AwaitItemSent => 11,
        ListPhase::AwaitItemRecovery => 10,
        ListPhase::AwaitTrailing => 9,
        ListPhase::AwaitAbortedItem => 8,
        ListPhase::AwaitAbortedSent => 7,
        ListPhase::AwaitAdded => 6,
        ListPhase::AwaitSent => 5,
        ListPhase::Finished => 0,
    }
}

/// Whether the action is performed in the state it leaves: a peek while
/// waiting for one, a parse while waiting for its result, and so on.
pub open spec fn list_action_fits(s: ListState, a: ListAction) -> bool {
    match a {
        ListAction::EmptyParse | ListAction::Succeed | ListAction::Fail => true,
        ListAction::Peek => s.phase == ListPhase::AwaitPeek || s.phase == ListPhase::AwaitPeekAfter,
        ListAction::ParseItem => s.phase == ListPhase::AwaitItem || s.phase
            == ListPhase::AwaitAbortedItem,
        ListAction::ParseTrailing => s.phase == ListPhase::AwaitTrailing,
        ListAction::CheckEmpty => s.phase == ListPhase::AwaitEmpty || s.phase
            == ListPhase::AwaitEmptyBefore || s.phase == ListPhase::AwaitEmptyAborting,
        ListAction::ParseSeparator => s.phase == ListPhase::AwaitSeparator,
        ListAction::SendError => s.phase == ListPhase::AwaitItemSent || s.phase
            == ListPhase::AwaitSeparatorSent || s.phase == ListPhase::AwaitAbortedSent,
        ListAction::RecoverItem => s.phase == ListPhase::AwaitItemRecovery,
        ListAction::RecoverSeparator => s.phase == ListPhase::AwaitSeparatorRecovery,
        ListAction::AddDefault => s.phase == ListPhase::AwaitAdded,
        ListAction::SendCountError { found, expected_min, expected_max } => s.phase
            == ListPhase::AwaitSent && found == s.count && expected_min == s.low && expected_max
            == s.high,
        ListAction::Ignore => false,
    }
}

/// A list step on an event that answers the state never ignores it, leaves
/// a state in which its action is performed, and either adds an item or
/// goes down in rank; an error comes only after a failed send or recovery.
pub proof fn lemma_list_step_progress(delimited: bool, s: ListState, e: ListEvent)
    requires
        list_wf(s),
        list_increments(s, e) ==> s.count < usize::MAX,
        list_fits(s.phase, e),
        !delimited ==> plain_phase(s.phase),
    ensures
        ({
            let (s2, a) = step_of(delimited, s, e);
            &&& !delimited ==> plain_phase(s2.phase)
            &&& list_action_fits(s2, a)
            &&& s2.low == s.low && s2.high == s.high
            &&& s2.count == if list_increments(s, e) { s.count + 1 } else { s.count as int }
            &&& list_increments(s, e) || list_rank(s2.phase) < list_rank(s.phase)
            &&& a matches ListAction::Fail ==> (e == ListEvent::Sent(false) || e
                == ListEvent::Recovered(false))
            &&& a matches ListAction::SendError ==> (e == ListEvent::ItemRecoverable || e
                == ListEvent::SeparatorRecoverable)
            &&& a matches ListAction::Succeed ==> s2.phase == ListPhase::Finished
            &&& a matches ListAction::EmptyParse ==> s.phase == ListPhase::Start && s.count == 0
                && s.high == Some(0usize)
        }),
{
}

/// Returns whether the peeked token ends an item: none follows, or it is
/// the separator, or the abort predicate holds of it.
fn at_boundary<'t, Sc: Scanner, A: Fn(&Sc::Token) -> bool>(
    lexer: &mut Lexer<'t, Sc>,
    sep_token: &Sc::Token,
    abort_pred: &A,
) -> (r: bool)
    requires
        forall|t: &Sc::Token| abort_pred.requires((t,)),
    ensures
        final(lexer).same_setup(*old(lexer)),
{
    match lexer.peek() {
        None => true,
        Some(tok) => tok == *sep_token || abort_pred(&tok),
    }
}

/// What a peek at the next token of a list finds.
fn peek_kind<'t, Sc: Scanner, A: Fn(&Sc::Token) -> bool>(lexer: &mut Lexer<'t, Sc>, abort_pred: &A) -> (r:
    ListPeek)
    requires
        forall|t: &Sc::Token| abort_pred.requires((t,)),
    ensures
        final(lexer).same_setup(*old(lexer)),
{
    match lexer.peek() {
        None => ListPeek::End,
        Some(tok) => if abort_pred(&tok) {
            ListPeek::Abort
        } else {
            ListPeek::Token
        },
    }
}

/// Skips to before the next separator or abort token; returns whether one
/// was found.
fn skip_to_boundary<'t, Sc: Scanner, A: Fn(&Sc::Token) -> bool>(
    lexer: &mut Lexer<'t, Sc>,
    sep_token: &Sc::Token,
    abort_pred: &A,
) -> (r: bool)
    requires
        forall|t: &Sc::Token| abort_pred.requires((t,)),
    ensures
        final(lexer).same_setup(*old(lexer)),
{
    let pred = |t: &Sc::Token| -> (b: bool)
        requires
            abort_pred.requires((t,)),
        { *t == *sep_token || abort_pred(t) };
    lexer.advance_up_to(pred)
}

/// Skips past the next separator or abort token.
fn skip_past_boundary<'t, Sc: Scanner, A: Fn(&Sc::Token) -> bool>(
    lexer: &mut Lexer<'t, Sc>,
    sep_token: &Sc::Token,
    abort_pred: &A,
)
    requires
        forall|t: &Sc::Token| abort_pred.requires((t,)),
    ensures
        final(lexer).same_setup(*old(lexer)),
{
    let pred = |t: &Sc::Token| -> (b: bool)
        requires
            abort_pred.requires((t,)),
        { *t == *sep_token || abort_pred(t) };
    let _ = lexer.advance_to(pred);
}

/// Calls the default value's constructor.
fn default_value<X: Default>() -> (r: X)
    ensures
        call_ensures(X::default, (), r),
{
    let d = X::default;
    d()
}

/// What a list parse gives: at most `high` items, each a value the parser
/// gave or a default value; fewer than `low` only where the parse context
/// took an item count error for them, or where `high` is zero and nothing
/// is parsed; an error only from the parser, the context or the list's own
/// checks.
pub open spec fn list_result<'t, Sc: Scanner, X: Default, Cx, F, S>(
    parser: F,
    send_error: S,
    ctx: Cx,
    low: usize,
    high: Option<usize>,
    lexer: Lexer<'t, Sc>,
    r: ParseResult<'t, Sc, Vec<X>>,
) -> bool where
    F: FnMut(Lexer<'t, Sc>, Cx) -> ParseResult<'t, Sc, X>,
    S: Fn(&Cx, ParseError<Sc::Token>) -> Result<(), ParseError<Sc::Token>>,
 {
    &&& high == Some(0usize) ==> (r matches Ok(s) && s.lexer == lexer && s.value@.len() == 0)
    &&& r matches Ok(s) ==> {
        &&& high matches Some(h) ==> s.value@.len() <= h
        &&& forall|i: int| 0 <= i < s.value@.len() ==> #[trigger] item_from(parser, s.value@[i])
        &&& s.value@.len() < low && high != Some(0usize) ==> exists|
            e: RepeatCountError,
            sent: Result<(), ParseError<Sc::Token>>,
        |
            #![trigger call_ensures(send_error, (&ctx, ParseError::<Sc::Token>::RepeatCount(e)), sent)]
            {
                &&& call_ensures(send_error, (&ctx, ParseError::<Sc::Token>::RepeatCount(e)), sent)
                &&& sent is Ok
                &&& e.found == s.value@.len()
                &&& e.expected_min == low
                &&& e.expected_max == high
            }
    }
    &&& r matches Err(e) ==> error_from::<Sc, X, Cx, F, S>(parser, send_error, *e)
}

/// Runs a list parse, delimited or not, performing each action that its
/// step function decides.
#[verifier::rlimit(60)]
fn run_list<'t, Sc: Scanner, X: Default, Cx: Clone, F, S, A>(
    delimited: bool,
    lexer: Lexer<'t, Sc>,
    ctx: &Cx,
    low: usize,
    high: Option<usize>,
    parser: F,
    sep_token: Sc::Token,
    abort_pred: A,
    send_error: S,
) -> (r: ParseResult<'t, Sc, Vec<X>>) where
    F: FnMut(Lexer<'t, Sc>, Cx) -> ParseResult<'t, Sc, X>,
    S: Fn(&Cx, ParseError<Sc::Token>) -> Result<(), ParseError<Sc::Token>>,
    A: Fn(&Sc::Token) -> bool,

    requires
        high matches Some(h) ==> h == 0 || low <= h,
        forall|t: &Sc::Token| abort_pred.requires((t,)),
        forall|l: Lexer<'t, Sc>, c: Cx| parser.requires((l, c)),
        forall|c: &Cx, e: ParseError<Sc::Token>| send_error.requires((c, e)),
    ensures
        list_result(parser, send_error, *ctx, low, high, lexer, r),
{
    let ghost parser0 = parser;
    let ghost lexer0 = lexer;
    let mut item_parser = parser;
    let mut lex = lexer;
    let mut values: Vec<X> = Vec::new();
    let mut pending: Option<ParseError<Sc::Token>> = None;
    let mut state = ListState::new(low, high);
    let mut event = ListEvent::Begin;
    loop
        invariant
            list_wf(state),
            state.low == low,
            state.high == high,
            list_fits(state.phase, event),
            !delimited ==> plain_phase(state.phase),
            values@.len() == if list_increments(state, event) {
                state.count + 1
            } else {
                state.count as int
            },
            forall|i: int| 0 <= i < values@.len() ==> #[trigger] item_from(parser0, values@[i]),
            event == ListEvent::ItemRecoverable || event == ListEvent::SeparatorRecoverable
                ==> pending is Some,
            event == ListEvent::Sent(false) || event == ListEvent::Recovered(false) ==> pending is Some,
            pending matches Some(e) ==> error_from::<Sc, X, Cx, F, S>(parser0, send_error, e),
            state.phase == ListPhase::AwaitSent && event == ListEvent::Sent(true) ==> exists|
                e: RepeatCountError,
                sent: Result<(), ParseError<Sc::Token>>,
            |
                #![trigger call_ensures(send_error, (ctx, ParseError::<Sc::Token>::RepeatCount(e)), sent)]
                {
                    &&& call_ensures(send_error, (ctx, ParseError::<Sc::Token>::RepeatCount(e)), sent)
                    &&& sent is Ok
                    &&& e.found == state.count
                    &&& e.expected_min == low
                    &&& e.expected_max == high
                },
            state.phase == ListPhase::Start ==> lex == lexer0 && event == ListEvent::Begin,
            high == Some(0usize) ==> state.phase == ListPhase::Start,
            item_parser == parser0,
            parser0 == parser,
            lexer0 == lexer,
            forall|t: &Sc::Token| abort_pred.requires((t,)),
            forall|l: Lexer<'t, Sc>, c: Cx| item_parser.requires((l, c)),
            forall|c: &Cx, e: ParseError<Sc::Token>| send_error.requires((c, e)),
        decreases usize::MAX - state.count, list_rank(state.phase),
    {
        let ghost s0 = state;
        let ghost e0 = event;
        let _n = values.len();
        proof {
            lemma_list_step_progress(delimited, state, event);
            if delimited {
                lemma_delimited_list_counts(state, event);
            } else {
                lemma_list_counts(state, event);
            }
        }
        let (s2, action) = if delimited {
            delimited_list_step(state, event)
        } else {
            list_step(state, event)
        };
        state = s2;
        match action {
            ListAction::EmptyParse => {
                let r = Ok(Success { lexer: lex, value: Vec::new() });
                proof {
                    assert(list_result(parser0, send_error, *ctx, low, high, lexer0, r));
                }
                return r;
            },
            ListAction::Peek => {
                event = ListEvent::Peeked(peek_kind(&mut lex, &abort_pred));
            },
            ListAction::ParseItem => {
                let aborted = state.phase == ListPhase::AwaitAbortedItem;
                let c = ctx.clone();
                let l = lex.snapshot();
                let res = item_parser(l, c);
                proof {
                    assert(call_ensures(parser0, (l, c), res));
                }
                match res {
                    Ok(s) => {
                        let ghost s_0 = s;
                        let mut after = s.lexer;
                        if at_boundary(&mut after, &sep_token, &abort_pred) {
                            if !aborted {
                                lex = after;
                                values.push(s.value);
                                proof {
                                    assert(item_from(parser0, s_0.value));
                                    assert(forall|i: int|
                                        0 <= i < values@.len() ==> #[trigger] item_from(
                                            parser0,
                                            values@[i],
                                        ));
                                }
                            }
                            event = ListEvent::Item(true);
                        } else {
                            let error_span = after.parse_span();
                            skip_past_boundary(&mut after, &sep_token, &abort_pred);
                            pending = Some(
                                ParseError::ParseBoundary(
                                    ParseBoundaryError {
                                        error_span,
                                        expected_end_pos: after.cursor_pos(),
                                    },
                                ),
                            );
                            event = ListEvent::ItemRecoverable;
                        }
                    },
                    Err(f) => {
                        let ghost f_0 = f;
                        pending = Some(*f);
                        proof {
                            assert(call_ensures(parser0, (l, c), Err::<Success<'t, Sc, X>, Box<ParseError<Sc::Token>>>(f_0)));
                        }
                        event = ListEvent::ItemRecoverable;
                    },
                }
            },
            ListAction::ParseTrailing => {
                let c = ctx.clone();
                let l = lex.snapshot();
                let res = item_parser(l, c);
                proof {
                    assert(call_ensures(parser0, (l, c), res));
                }
                event = ListEvent::Trailing(TrailingItem::Nothing);
                match res {
                    Ok(s) => {
                        let ghost s_0 = s;
                        let mut after = s.lexer;
                        if at_boundary(&mut after, &sep_token, &abort_pred) {
                            lex = after;
                            values.push(s.value);
                            proof {
                                assert(item_from(parser0, s_0.value));
                                assert(forall|i: int|
                                    0 <= i < values@.len() ==> #[trigger] item_from(parser0, values@[i]));
                            }
                            event = ListEvent::Trailing(TrailingItem::Value);
                        }
                    },
                    Err(_) => {},
                }
            },
            ListAction::CheckEmpty => {
                event = ListEvent::Empty(lex.is_empty());
            },
            ListAction::ParseSeparator => {
                match one(lex.snapshot(), sep_token.clone()) {
                    Ok(s) => {
                        lex = s.lexer.into_sublexer();
                        event = ListEvent::Separator(true);
                    },
                    Err(e) => {
                        pending = Some(*e);
                        event = ListEvent::SeparatorRecoverable;
                    },
                }
            },
            ListAction::SendError => {
                let e = match pending.take() {
                    Some(e) => e,
                    None => vstd::pervasive::unreached(),
                };
                let ghost e_0 = e;
                let sent = send_error(ctx, e);
                let ghost sent0 = sent;
                proof {
                    assert(call_ensures(send_error, (ctx, e_0), sent0));
                }
                match sent {
                    Ok(()) => {
                        event = ListEvent::Sent(true);
                    },
                    Err(back) => {
                        proof {
                            assert(sent0 == Err::<(), ParseError<Sc::Token>>(back));
                            assert(call_ensures(send_error, (ctx, e_0), Err::<(), ParseError<Sc::Token>>(back)));
                        }
                        pending = Some(back);
                        event = ListEvent::Sent(false);
                    },
                }
            },
            ListAction::RecoverItem => {
                let found = skip_to_boundary(&mut lex, &sep_token, &abort_pred);
                if found {
                    let v = default_value::<X>();
                    values.push(v);
                    proof {
                        assert(item_from(parser0, v));
                        assert(forall|i: int|
                            0 <= i < values@.len() ==> #[trigger] item_from(parser0, values@[i]));
                    }
                } else {
                    pending = Some(ParseError::Recover(RecoverError));
                }
                event = ListEvent::Recovered(found);
            },
            ListAction::RecoverSeparator => {
                let found = skip_to_boundary(&mut lex, &sep_token, &abort_pred);
                if found {
                    lex = lex.into_sublexer();
                } else {
                    pending = Some(ParseError::Recover(RecoverError));
                }
                event = ListEvent::Recovered(found);
            },
            ListAction::AddDefault => {
                let v = default_value::<X>();
                values.push(v);
                proof {
                    assert(item_from(parser0, v));
                    assert(forall|i: int|
                        0 <= i < values@.len() ==> #[trigger] item_from(parser0, values@[i]));
                }
                event = ListEvent::Added;
            },
            ListAction::SendCountError { found, expected_min, expected_max } => {
                let e = RepeatCountError {
                    error_span: lex.parse_span(),
                    found,
                    expected_min,
                    expected_max,
                };
                let sent = send_error(ctx, ParseError::RepeatCount(e));
                let ghost sent0 = sent;
                proof {
                    assert(call_ensures(send_error, (ctx, ParseError::<Sc::Token>::RepeatCount(e)), sent0));
                }
                match sent {
                    Ok(()) => {
                        proof {
                            assert(sent0 is Ok);
                            assert(e.found == state.count);
                        }
                        event = ListEvent::Sent(true);
                    },
                    Err(back) => {
                        proof {
                            assert(sent0 == Err::<(), ParseError<Sc::Token>>(back));
                            assert(call_ensures(
                                send_error,
                                (ctx, ParseError::<Sc::Token>::RepeatCount(e)),
                                Err::<(), ParseError<Sc::Token>>(back),
                            ));
                        }
                        pending = Some(back);
                        event = ListEvent::Sent(false);
                    },
                }
            },
            ListAction::Succeed => {
                let r = Ok(Success { lexer: lex, value: values });
                proof {
                    assert(values@.len() == state.count);
                    if s0.phase == ListPhase::AwaitSent {
                        assert(e0 == ListEvent::Sent(true));
                        let (e, sent) = choose|e: RepeatCountError, sent: Result<(), ParseError<Sc::Token>>|
                            call_ensures(send_error, (ctx, ParseError::<Sc::Token>::RepeatCount(e)), sent)
                                && sent is Ok && e.found == s0.count && e.expected_min == low
                                && e.expected_max == high;
                        assert(call_ensures(send_error, (&*ctx, ParseError::<Sc::Token>::RepeatCount(e)), sent));
                    }
                    assert(list_result(parser0, send_error, *ctx, low, high, lexer0, r));
                }
                return r;
            },
            ListAction::Fail => {
                let e = match pending.take() {
                    Some(e) => e,
                    None => vstd::pervasive::unreached(),
                };
                return Err(Box::new(e));
            },
            ListAction::Ignore => {
                return vstd::pervasive::unreached();
            },
        }
    }
}

/// Parses `low` to `high` items separated by `sep_token`, ending where no
/// text remains or an abort token comes, as `list_step` decides. An item is
/// parsed up to the next separator or abort token, and one that stops
/// short of it fails; a failed item or separator has its error handed to
/// the context, and where the context takes it the lexer skips to the next
/// separator or abort token, a failed item counting with the default
/// value. Too few items are reported to the context as an item count
/// error. An upper bound of zero parses nothing.
pub fn list_bounded_default<'t, Sc: Scanner, X: Default, Cx: Clone, F, S, A>(
    lexer: Lexer<'t, Sc>,
    ctx: &Cx,
    low: usize,
    high: Option<usize>,
    parser: F,
    sep_token: Sc::Token,
    abort_pred: A,
    send_error: S,
) -> (r: ParseResult<'t, Sc, Vec<X>>) where
    F: FnMut(Lexer<'t, Sc>, Cx) -> ParseResult<'t, Sc, X>,
    S: Fn(&Cx, ParseError<Sc::Token>) -> Result<(), ParseError<Sc::Token>>,
    A: Fn(&Sc::Token) -> bool,

    requires
        high matches Some(h) ==> h == 0 || low <= h,
        forall|t: &Sc::Token| abort_pred.requires((t,)),
        forall|l: Lexer<'t, Sc>, c: Cx| parser.requires((l, c)),
        forall|c: &Cx, e: ParseError<Sc::Token>| send_error.requires((c, e)),
    ensures
        list_result(parser, send_error, *ctx, low, high, lexer, r),
{
    run_list(false, lexer, ctx, low, high, parser, sep_token, abort_pred, send_error)
}

/// Parses `low` to `high` items separated by `sep_token`, as
/// `delimited_list_step` decides: like `list_bounded_default`, but whether
/// text remains is checked before each item, and an abort token (one of
/// `abort_tokens`) after some items ends the list with one more item, the
/// default value, once that item's parse has been tried.
pub fn delimited_list_bounded_default<'t, Sc: Scanner, X: Default, Cx: Clone, F, S>(
    lexer: Lexer<'t, Sc>,
    ctx: &Cx,
    low: usize,
    high: Option<usize>,
    parser: F,
    sep_token: Sc::Token,
    abort_tokens: &[Sc::Token],
    send_error: S,
) -> (r: ParseResult<'t, Sc, Vec<X>>) where
    F: FnMut(Lexer<'t, Sc>, Cx) -> ParseResult<'t, Sc, X>,
    S: Fn(&Cx, ParseError<Sc::Token>) -> Result<(), ParseError<Sc::Token>>,

    requires
        high matches Some(h) ==> h == 0 || low <= h,
        forall|l: Lexer<'t, Sc>, c: Cx| parser.requires((l, c)),
        forall|c: &Cx, e: ParseError<Sc::Token>| send_error.requires((c, e)),
    ensures
        list_result(parser, send_error, *ctx, low, high, lexer, r),
{
    let abort_pred = |t: &Sc::Token| -> (b: bool) { token_index(abort_tokens, t).is_some() };
    run_list(true, lexer, ctx, low, high, parser, sep_token, abort_pred, send_error)
}

/// Parses any number of items separated by `sep_token`, as
/// `list_bounded_default` does with no bounds.
pub fn list_default<'t, Sc: Scanner, X: Default, Cx: Clone, F, S, A>(
    lexer: Lexer<'t, Sc>,
    ctx: &Cx,
    parser: F,
    sep_token: Sc::Token,
    abort_pred: A,
    send_error: S,
) -> (r: ParseResult<'t, Sc, Vec<X>>) where
    F: FnMut(Lexer<'t, Sc>, Cx) -> ParseResult<'t, Sc, X>,
    S: Fn(&Cx, ParseError<Sc::Token>) -> Result<(), ParseError<Sc::Token>>,
    A: Fn(&Sc::Token) -> bool,

    requires
        forall|t: &Sc::Token| abort_pred.requires((t,)),
        forall|l: Lexer<'t, Sc>, c: Cx| parser.requires((l, c)),
        forall|c: &Cx, e: ParseError<Sc::Token>| send_error.requires((c, e)),
    ensures
        list_result(parser, send_error, *ctx, 0, None, lexer, r),
{
    list_bounded_default(lexer, ctx, 0, None, parser, sep_token, abort_pred, send_error)
}

/// Parses any number of items separated by `sep_token`, as
/// `delimited_list_bounded_default` does with no bounds.
pub fn delimited_list_default<'t, Sc: Scanner, X: Default, Cx: Clone, F, S>(
    lexer: Lexer<'t, Sc>,
    ctx: &Cx,
    parser: F,
    sep_token: Sc::Token,
    abort_tokens: &[Sc::Token],
    send_error: S,
) -> (r: ParseResult<'t, Sc, Vec<X>>) where
    F: FnMut(Lexer<'t, Sc>, Cx) -> ParseResult<'t, Sc, X>,
    S: Fn(&Cx, ParseError<Sc::Token>) -> Result<(), ParseError<Sc::Token>>,

    requires
        forall|l: Lexer<'t, Sc>, c: Cx| parser.requires((l, c)),
        forall|c: &Cx, e: ParseError<Sc::Token>| send_error.requires((c, e)),
    ensures
        list_result(parser, send_error, *ctx, 0, None, lexer, r),
{
    delimited_list_bounded_default(lexer, ctx, 0, None, parser, sep_token, abort_tokens, send_error)
}

/// What a bracket search from `lexer` gave, whatever stopped it: at the
/// end of the text no bracket is found; a match holds two brackets of one
/// kind, the open one before the close one; and the result is that of a
/// run of the matcher over some events.
pub open spec fn search_found<'t, Sc: Scanner>(
    lexer: Lexer<'t, Sc>,
    close_tokens: Seq<Sc::Token>,
    r: Result<BracketMatch<'t, Sc>, MatchBracketError>,
) -> bool {
    &&& lexer.at_end() ==> r == Err::<BracketMatch<'t, Sc>, MatchBracketError>(
        MatchBracketError::NoneFound { expected_start: enclosing(lexer.cursor, lexer.cursor) },
    )
    &&& r matches Ok(m) ==> {
        &&& m.index < close_tokens.len()
        &&& m.open.buffer is Some
        &&& m.close.buffer is Some
        &&& !m.open.at_end()
        &&& !m.close.at_end()
        &&& m.open.source_text == lexer.source_text
        &&& m.close.same_setup(lexer)
        &&& lexer.cursor.byte <= m.open.cursor.byte < m.close.cursor.byte
    }
    &&& exists|events: Seq<MatchEvent>|
        #![trigger match_run(Seq::empty(), false, events)]
        search_result(r, events, enclosing(lexer.cursor, lexer.cursor))
}

/// Parses `center` between a pair of matching brackets, as
/// `bracket_default_index` does, the search for an open bracket ending at
/// any of `abort_tokens` that comes first.
pub fn bracket_default<'t, Sc: Scanner, X: Default, Cx: Clone, F, S>(
    lexer: Lexer<'t, Sc>,
    ctx: &Cx,
    open_tokens: &[Sc::Token],
    center: F,
    close_tokens: &[Sc::Token],
    abort_tokens: &[Sc::Token],
    send_error: S,
) -> (r: ParseResult<'t, Sc, (X, usize)>) where
    F: FnMut(Lexer<'t, Sc>, Cx) -> ParseResult<'t, Sc, X>,
    S: Fn(&Cx, ParseError<Sc::Token>) -> Result<(), ParseError<Sc::Token>>,

    requires
        bracket_tokens_valid(open_tokens@, close_tokens@),
        forall|l: Lexer<'t, Sc>, c: Cx| center.requires((l, c)),
        forall|c: &Cx, e: ParseError<Sc::Token>| send_error.requires((c, e)),
        open_tokens.len() <= usize::MAX / 64,
        lexer.source_text.bytes().len() < usize::MAX / 64,
    ensures
        exists|m: Result<BracketMatch<'t, Sc>, MatchBracketError>|
            #![trigger search_found(lexer, close_tokens@, m)]
            search_found(lexer, close_tokens@, m) && bracket_outcome(*ctx, center, send_error, m, r),
{
    let abort_pred = |t: &Sc::Token| -> (b: bool) { token_index(abort_tokens, t).is_some() };
    let r = bracket_default_index(
        lexer,
        ctx,
        open_tokens,
        center,
        close_tokens,
        abort_pred,
        send_error,
    );
    proof {
        let m = choose|m: Result<BracketMatch<'t, Sc>, MatchBracketError>|
            #![trigger search_outcome(lexer, open_tokens@, close_tokens@, abort_pred, m)]
            search_outcome(lexer, open_tokens@, close_tokens@, abort_pred, m) && bracket_outcome(
                *ctx,
                center,
                send_error,
                m,
                r,
            );
        assert(search_found(lexer, close_tokens@, m));
    }
    r
}

/// Whether `x` is a value that `parser` gave.
pub open spec fn parsed_by<'t, Sc: Scanner, X, Cx, F>(parser: F, x: X) -> bool where
    F: FnMut(Lexer<'t, Sc>, Cx) -> ParseResult<'t, Sc, X>,
 {
    exists|l: Lexer<'t, Sc>, c: Cx, s: Success<'t, Sc, X>|
        #![trigger call_ensures(parser, (l, c), Ok::<Success<'t, Sc, X>, Box<ParseError<Sc::Token>>>(s))]
        call_ensures(parser, (l, c), Ok::<Success<'t, Sc, X>, Box<ParseError<Sc::Token>>>(s))
            && s.value == x
}

/// Whether `e` is an error that `parser` gave.
pub open spec fn failed_with<'t, Sc: Scanner, X, Cx, F>(parser: F, e: ParseError<Sc::Token>) -> bool where
    F: FnMut(Lexer<'t, Sc>, Cx) -> ParseResult<'t, Sc, X>,
 {
    exists|l: Lexer<'t, Sc>, c: Cx, b: Box<ParseError<Sc::Token>>|
        #![trigger call_ensures(parser, (l, c), Err::<Success<'t, Sc, X>, Box<ParseError<Sc::Token>>>(b))]
        call_ensures(parser, (l, c), Err::<Success<'t, Sc, X>, Box<ParseError<Sc::Token>>>(b))
            && *b == e
}

/// The items an interspersed repetition has parsed, in its state.
pub open spec fn intersperse_items(s: IntersperseState) -> int {
    match s {
        IntersperseState::AwaitRequired { count, .. } => count as int,
        IntersperseState::AwaitOptional { count, .. } => count as int,
        IntersperseState::Finished { count } => count as int,
        _ => 0,
    }
}

/// Where an interspersed repetition stands, ordered so that every step
/// that adds no item goes down.
pub open spec fn intersperse_rank(s: IntersperseState) -> int {
    match s {
        IntersperseState::Start { .. } => 3,
        IntersperseState::AwaitFirst { .. } => 2,
        IntersperseState::AwaitRequired { .. } | IntersperseState::AwaitOptional { .. } => 1,
        IntersperseState::Finished { .. } => 0,
    }
}

/// A step of an interspersed repetition on the event it waits for never
/// ignores it, and either adds an item or goes down in rank.
pub proof fn lemma_intersperse_progress(s: IntersperseState, e: IntersperseEvent)
    requires
        intersperse_wf(s),
        s matches IntersperseState::Start { .. } <==> e == IntersperseEvent::Begin,
        !(s is Finished),
        e == IntersperseEvent::Parsed(true) ==> (s matches IntersperseState::AwaitOptional { count, .. }
            ==> count < usize::MAX),
    ensures
        ({
            let (s2, a) = intersperse_step_spec(s, e);
            &&& a != IntersperseAction::Ignore
            &&& intersperse_items(s2) == if e == IntersperseEvent::Parsed(true) {
                intersperse_items(s) + 1
            } else {
                intersperse_items(s)
            }
            &&& e == IntersperseEvent::Parsed(true) || intersperse_rank(s2) < intersperse_rank(s)
            &&& a == IntersperseAction::ParseFirst ==> s2 is AwaitFirst
            &&& a == IntersperseAction::ParseNext ==> (s2 is AwaitRequired || s2 is AwaitOptional)
            &&& (a == IntersperseAction::Succeed || a == IntersperseAction::SucceedEmpty
                || a == IntersperseAction::Fail) ==> s2 is Finished
            &&& a == IntersperseAction::SucceedEmpty ==> intersperse_items(s2) == 0
                && e != IntersperseEvent::Parsed(true)
            &&& a == IntersperseAction::Fail ==> e == IntersperseEvent::Parsed(false)
        }),
{
}

/// What an interspersed repetition gives: between `low` and `high` items,
/// each a value the parser gave; where none was parsed, the lexer it was
/// given; an error only from the item or the separator parser.
pub open spec fn intersperse_result<'t, Sc: Scanner, X, T, Cx, F, H>(
    parser: F,
    inter_parser: H,
    low: usize,
    high: Option<usize>,
    lexer: Lexer<'t, Sc>,
    r: ParseResult<'t, Sc, Vec<X>>,
) -> bool where
    F: FnMut(Lexer<'t, Sc>, Cx) -> ParseResult<'t, Sc, X>,
    H: FnMut(Lexer<'t, Sc>, Cx) -> ParseResult<'t, Sc, T>,
 {
    &&& r matches Ok(s) ==> {
        &&& low <= s.value@.len()
        &&& high matches Some(h) ==> s.value@.len() <= h
        &&& forall|i: int| 0 <= i < s.value@.len() ==> #[trigger] parsed_by(parser, s.value@[i])
        &&& s.value@.len() == 0 ==> s.lexer == lexer
    }
    &&& r matches Err(e) ==> failed_with(parser, *e) || failed_with(inter_parser, *e)
}

/// Parses `low` to `high` items, each after the first preceded by a parse
/// of `inter_parser`, as `intersperse_step` decides: items below the lower
/// bound are required, those up to the upper bound tried; a first item that
/// fails gives no items where none are required.
#[verifier::rlimit(40)]
pub fn intersperse<'t, Sc: Scanner, X, T, Cx: Clone, F, H>(
    lexer: Lexer<'t, Sc>,
    ctx: &Cx,
    low: usize,
    high: Option<usize>,
    parser: F,
    inter_parser: H,
) -> (r: ParseResult<'t, Sc, Vec<X>>) where
    F: FnMut(Lexer<'t, Sc>, Cx) -> ParseResult<'t, Sc, X>,
    H: FnMut(Lexer<'t, Sc>, Cx) -> ParseResult<'t, Sc, T>,

    requires
        high matches Some(h) ==> low <= h,
        forall|l: Lexer<'t, Sc>, c: Cx| parser.requires((l, c)),
        forall|l: Lexer<'t, Sc>, c: Cx| inter_parser.requires((l, c)),
    ensures
        intersperse_result(parser, inter_parser, low, high, lexer, r),
{
    let ghost parser0 = parser;
    let ghost inter0 = inter_parser;
    let ghost lexer0 = lexer;
    let mut item_parser = parser;
    let mut sep_parser = inter_parser;
    let mut lex = lexer;
    let mut values: Vec<X> = Vec::new();
    let mut pending: Option<ParseError<Sc::Token>> = None;
    let mut state = IntersperseState::new(low, high);
    let mut event = IntersperseEvent::Begin;
    loop
        invariant
            intersperse_wf(state),
            intersperse_bounds(state) == (low, high),
            !(state is Finished),
            state matches IntersperseState::Start { .. } <==> event == IntersperseEvent::Begin,
            values@.len() == if event == IntersperseEvent::Parsed(true) {
                intersperse_items(state) + 1
            } else {
                intersperse_items(state)
            },
            forall|i: int| 0 <= i < values@.len() ==> #[trigger] parsed_by(parser0, values@[i]),
            event == IntersperseEvent::Parsed(false) ==> (pending matches Some(e) && (failed_with(
                parser0,
                e,
            ) || failed_with(inter0, e))),
            values@.len() == 0 ==> lex == lexer0,
            item_parser == parser0,
            sep_parser == inter0,
            parser0 == parser,
            inter0 == inter_parser,
            lexer0 == lexer,
            forall|l: Lexer<'t, Sc>, c: Cx| item_parser.requires((l, c)),
            forall|l: Lexer<'t, Sc>, c: Cx| sep_parser.requires((l, c)),
        decreases usize::MAX - intersperse_items(state), intersperse_rank(state),
    {
        let _n = values.len();
        let ghost s0 = state;
        proof {
            lemma_intersperse_progress(state, event);
            lemma_intersperse_counts(state, event);
        }
        let (s2, action) = intersperse_step(state, event);
        state = s2;
        match action {
            IntersperseAction::ParseFirst | IntersperseAction::ParseNext => {
                let first = action == IntersperseAction::ParseFirst;
                let res = if first {
                    let c = ctx.clone();
                    let l = lex.snapshot();
                    let res = item_parser(l, c);
                    proof {
                        assert(call_ensures(parser0, (l, c), res));
                        match res {
                            Ok(ref s) => assert(call_ensures(parser0, (l, c), Ok::<Success<'t, Sc, X>, Box<ParseError<Sc::Token>>>(*s))),
                            Err(ref b) => assert(call_ensures(parser0, (l, c), Err::<Success<'t, Sc, X>, Box<ParseError<Sc::Token>>>(*b))),
                        }
                    }
                    res
                } else {
                    let c0 = ctx.clone();
                    let l0 = lex.snapshot();
                    let sep = sep_parser(l0, c0);
                    proof {
                        match sep {
                            Ok(ref s) => assert(call_ensures(inter0, (l0, c0), Ok::<Success<'t, Sc, T>, Box<ParseError<Sc::Token>>>(*s))),
                            Err(ref b) => assert(call_ensures(inter0, (l0, c0), Err::<Success<'t, Sc, T>, Box<ParseError<Sc::Token>>>(*b))),
                        }
                    }
                    match sep {
                        Ok(sep) => {
                            let c = ctx.clone();
                            let l = sep.lexer;
                            let res = item_parser(l, c);
                            proof {
                                match res {
                                    Ok(ref s) => assert(call_ensures(parser0, (l, c), Ok::<Success<'t, Sc, X>, Box<ParseError<Sc::Token>>>(*s))),
                                    Err(ref b) => assert(call_ensures(parser0, (l, c), Err::<Success<'t, Sc, X>, Box<ParseError<Sc::Token>>>(*b))),
                                }
                            }
                            res
                        },
                        Err(e) => Err(e),
                    }
                };
                match res {
                    Ok(s) => {
                        lex = s.lexer;
                        values.push(s.value);
                        proof {
                            assert(forall|i: int|
                                0 <= i < values@.len() ==> #[trigger] parsed_by(parser0, values@[i]));
                        }
                        event = IntersperseEvent::Parsed(true);
                    },
                    Err(e) => {
                        pending = Some(*e);
                        event = IntersperseEvent::Parsed(false);
                    },
                }
            },
            IntersperseAction::Succeed => {
                return Ok(Success { lexer: lex, value: values });
            },
            IntersperseAction::SucceedEmpty => {
                return Ok(Success { lexer: lex, value: Vec::new() });
            },
            IntersperseAction::Fail => {
                let e = match pending.take() {
                    Some(e) => e,
                    None => vstd::pervasive::unreached(),
                };
                return Err(Box::new(e));
            },
            IntersperseAction::Ignore => {
                return vstd::pervasive::unreached();
            },
        }
    }
}

/// Parses `low` to `high` items, each after the first preceded by
/// `sep_token`, as `intersperse` does; an error comes from the parser or is
/// that of a missing separator.
pub fn intersperse_default<'t, Sc: Scanner, X, Cx: Clone, F>(
    lexer: Lexer<'t, Sc>,
    ctx: &Cx,
    low: usize,
    high: Option<usize>,
    parser: F,
    sep_token: Sc::Token,
) -> (r: ParseResult<'t, Sc, Vec<X>>) where
    F: FnMut(Lexer<'t, Sc>, Cx) -> ParseResult<'t, Sc, X>,

    requires
        high matches Some(h) ==> low <= h,
        forall|l: Lexer<'t, Sc>, c: Cx| parser.requires((l, c)),
    ensures
        r matches Ok(s) ==> {
            &&& low <= s.value@.len()
            &&& high matches Some(h) ==> s.value@.len() <= h
            &&& forall|i: int| 0 <= i < s.value@.len() ==> #[trigger] parsed_by(parser, s.value@[i])
            &&& s.value@.len() == 0 ==> s.lexer == lexer
        },
        r matches Err(e) ==> failed_with(parser, *e) || *e matches ParseError::UnexpectedToken(_),
{
    let sep = move |l: Lexer<'t, Sc>, c: Cx| -> (r: ParseResult<'t, Sc, Sc::Token>)
        ensures
            r matches Err(e) ==> *e matches ParseError::UnexpectedToken(_),
        { one(l, sep_token.clone()) };
    let r = intersperse(lexer, ctx, low, high, parser, sep);
    proof {
        if r is Err && !failed_with(parser, *r->Err_0) {
            let e = *r->Err_0;
            assert(failed_with(sep, e));
            let (l, c, b) = choose|l: Lexer<'t, Sc>, c: Cx, b: Box<ParseError<Sc::Token>>|
                #![trigger call_ensures(sep, (l, c), Err::<Success<'t, Sc, Sc::Token>, Box<ParseError<Sc::Token>>>(b))]
                call_ensures(sep, (l, c), Err::<Success<'t, Sc, Sc::Token>, Box<ParseError<Sc::Token>>>(b))
                    && *b == e;
            assert(*b matches ParseError::UnexpectedToken(_));
        }
    }
    r
}

/// Whether `stop_parser` succeeded on some lexer and context.
pub open spec fn stopped_by<'t, Sc: Scanner, V, Cx, G>(stop_parser: G) -> bool where
    G: FnMut(Lexer<'t, Sc>, Cx) -> ParseResult<'t, Sc, V>,
 {
    exists|l: Lexer<'t, Sc>, c: Cx, res: ParseResult<'t, Sc, V>|
        #![trigger call_ensures(stop_parser, (l, c), res)]
        call_ensures(stop_parser, (l, c), res) && res is Ok
}

/// The items an interspersed repetition with a stop parse has parsed, in
/// its state.
pub open spec fn until_count(s: UntilState) -> int {
    match s {
        UntilState::AwaitStop { count, .. } => count as int,
        UntilState::AwaitItem { count, .. } => count as int,
        UntilState::Finished { count } => count as int,
        _ => 0,
    }
}

/// Where an interspersed repetition with a stop parse stands, ordered so
/// that every step that adds no item goes down.
pub open spec fn until_rank(s: UntilState) -> int {
    match s {
        UntilState::Start { .. } => 3,
        UntilState::AwaitStop { .. } => 2,
        UntilState::AwaitItem { .. } => 1,
        UntilState::Finished { .. } => 0,
    }
}

/// Whether `e` fits the state `s` of an interspersed repetition with a
/// stop parse: the event of the action that led to it.
pub open spec fn until_fits(s: UntilState, e: UntilEvent) -> bool {
    match s {
        UntilState::Start { .. } => e == UntilEvent::Begin,
        UntilState::AwaitStop { .. } => e matches UntilEvent::Stopped(_),
        UntilState::AwaitItem { .. } => e matches UntilEvent::Parsed(_),
        UntilState::Finished { .. } => false,
    }
}

/// A step of an interspersed repetition with a stop parse on the event it
/// waits for never ignores it, and either adds an item or goes down in
/// rank.
pub proof fn lemma_until_progress(s: UntilState, e: UntilEvent)
    requires
        until_wf(s),
        until_fits(s, e),
        e == UntilEvent::Parsed(true) ==> (s matches UntilState::AwaitItem { count, .. } ==> count
            < usize::MAX),
    ensures
        ({
            let (s2, a) = until_step_spec(s, e);
            &&& a != UntilAction::Ignore
            &&& until_count(s2) == if e == UntilEvent::Parsed(true) {
                until_count(s) + 1
            } else {
                until_count(s)
            }
            &&& e == UntilEvent::Parsed(true) || until_rank(s2) < until_rank(s)
            &&& a == UntilAction::CheckStop ==> s2 is AwaitStop
            &&& (a == UntilAction::ParseFirst || a == UntilAction::ParseNext) ==> s2 is AwaitItem
            &&& a == UntilAction::ParseFirst ==> until_count(s2) == 0
            &&& (a == UntilAction::Succeed || a == UntilAction::Fail) ==> s2 is Finished
            &&& a == UntilAction::Fail ==> e == UntilEvent::Parsed(false)
            &&& a == UntilAction::Succeed && e == UntilEvent::Parsed(false) ==> s matches UntilState::AwaitItem {
                item: UntilItem::Optional,
                ..
            }
        }),
{
}

/// What an interspersed repetition with a stop parse gives: at most `high`
/// items, each a value the parser gave; fewer than `low` only where the
/// stop parse succeeded; where none was parsed, the lexer it was given; an
/// error only from the item or the separator parser.
pub open spec fn until_result<'t, Sc: Scanner, V, U, T, Cx, G, F, H>(
    stop_parser: G,
    parser: F,
    inter_parser: H,
    low: usize,
    high: Option<usize>,
    lexer: Lexer<'t, Sc>,
    r: ParseResult<'t, Sc, Vec<U>>,
) -> bool where
    G: FnMut(Lexer<'t, Sc>, Cx) -> ParseResult<'t, Sc, V>,
    F: FnMut(Lexer<'t, Sc>, Cx) -> ParseResult<'t, Sc, U>,
    H: FnMut(Lexer<'t, Sc>, Cx) -> ParseResult<'t, Sc, T>,
 {
    &&& r matches Ok(s) ==> {
        &&& high matches Some(h) ==> s.value@.len() <= h
        &&& s.value@.len() < low ==> stopped_by(stop_parser)
        &&& forall|i: int| 0 <= i < s.value@.len() ==> #[trigger] parsed_by(parser, s.value@[i])
        &&& s.value@.len() == 0 ==> s.lexer == lexer
    }
    &&& r matches Err(e) ==> failed_with(parser, *e) || failed_with(inter_parser, *e)
}

/// Parses `low` to `high` items, each after the first preceded by a parse
/// of `inter_parser`, as `intersperse_until_step` decides: before each item
/// `stop_parser` is tried on a copy of the lexer, and its success ends the
/// repetition with the items so far, consuming nothing.
#[verifier::rlimit(60)]
pub fn intersperse_until<'t, Sc: Scanner, V, U, T, Cx: Clone, G, F, H>(
    lexer: Lexer<'t, Sc>,
    ctx: &Cx,
    low: usize,
    high: Option<usize>,
    stop_parser: G,
    parser: F,
    inter_parser: H,
) -> (r: ParseResult<'t, Sc, Vec<U>>) where
    G: FnMut(Lexer<'t, Sc>, Cx) -> ParseResult<'t, Sc, V>,
    F: FnMut(Lexer<'t, Sc>, Cx) -> ParseResult<'t, Sc, U>,
    H: FnMut(Lexer<'t, Sc>, Cx) -> ParseResult<'t, Sc, T>,

    requires
        high matches Some(h) ==> low <= h,
        forall|l: Lexer<'t, Sc>, c: Cx| stop_parser.requires((l, c)),
        forall|l: Lexer<'t, Sc>, c: Cx| parser.requires((l, c)),
        forall|l: Lexer<'t, Sc>, c: Cx| inter_parser.requires((l, c)),
    ensures
        until_result(stop_parser, parser, inter_parser, low, high, lexer, r),
{
    let ghost stop0 = stop_parser;
    let ghost parser0 = parser;
    let ghost inter0 = inter_parser;
    let ghost lexer0 = lexer;
    let mut stop = stop_parser;
    let mut item_parser = parser;
    let mut sep_parser = inter_parser;
    let mut lex = lexer;
    let mut values: Vec<U> = Vec::new();
    let mut pending: Option<ParseError<Sc::Token>> = None;
    let mut state = UntilState::new(low, high);
    let mut event = UntilEvent::Begin;
    loop
        invariant
            until_wf(state),
            until_fits(state, event),
            until_high(state) == high,
            state matches UntilState::AwaitStop { low: l, .. } ==> l == low,
            state matches UntilState::AwaitItem { low: l, .. } ==> l == low,
            state matches UntilState::Start { low: l, .. } ==> l == low,
            values@.len() == if event == UntilEvent::Parsed(true) {
                until_count(state) + 1
            } else {
                until_count(state)
            },
            forall|i: int| 0 <= i < values@.len() ==> #[trigger] parsed_by(parser0, values@[i]),
            event == UntilEvent::Parsed(false) ==> (pending matches Some(e) && (failed_with(
                parser0,
                e,
            ) || failed_with(inter0, e))),
            event == UntilEvent::Stopped(true) ==> stopped_by(stop0),
            values@.len() == 0 ==> lex == lexer0,
            stop == stop0,
            item_parser == parser0,
            sep_parser == inter0,
            stop0 == stop_parser,
            parser0 == parser,
            inter0 == inter_parser,
            lexer0 == lexer,
            forall|l: Lexer<'t, Sc>, c: Cx| stop.requires((l, c)),
            forall|l: Lexer<'t, Sc>, c: Cx| item_parser.requires((l, c)),
            forall|l: Lexer<'t, Sc>, c: Cx| sep_parser.requires((l, c)),
        decreases usize::MAX - until_count(state), until_rank(state),
    {
        let _n = values.len();
        proof {
            lemma_until_progress(state, event);
            lemma_until_counts(state, event);
        }
        let (s2, action) = intersperse_until_step(state, event);
        state = s2;
        match action {
            UntilAction::CheckStop => {
                let c = ctx.clone();
                let l = lex.snapshot();
                let res = stop(l, c);
                proof {
                    assert(call_ensures(stop0, (l, c), res));
                }
                event = UntilEvent::Stopped(res.is_ok());
            },
            UntilAction::ParseFirst | UntilAction::ParseNext => {
                let res = if action == UntilAction::ParseFirst {
                    let c = ctx.clone();
                    let l = lex.snapshot();
                    let res = item_parser(l, c);
                    proof {
                        match res {
                            Ok(ref s) => assert(call_ensures(parser0, (l, c), Ok::<Success<'t, Sc, U>, Box<ParseError<Sc::Token>>>(*s))),
                            Err(ref b) => assert(call_ensures(parser0, (l, c), Err::<Success<'t, Sc, U>, Box<ParseError<Sc::Token>>>(*b))),
                        }
                    }
                    res
                } else {
                    let c0 = ctx.clone();
                    let l0 = lex.snapshot();
                    let sep = sep_parser(l0, c0);
                    proof {
                        match sep {
                            Ok(ref s) => assert(call_ensures(inter0, (l0, c0), Ok::<Success<'t, Sc, T>, Box<ParseError<Sc::Token>>>(*s))),
                            Err(ref b) => assert(call_ensures(inter0, (l0, c0), Err::<Success<'t, Sc, T>, Box<ParseError<Sc::Token>>>(*b))),
                        }
                    }
                    match sep {
                        Ok(sep) => {
                            let c = ctx.clone();
                            let l = sep.lexer;
                            let res = item_parser(l, c);
                            proof {
                                match res {
                                    Ok(ref s) => assert(call_ensures(parser0, (l, c), Ok::<Success<'t, Sc, U>, Box<ParseError<Sc::Token>>>(*s))),
                                    Err(ref b) => assert(call_ensures(parser0, (l, c), Err::<Success<'t, Sc, U>, Box<ParseError<Sc::Token>>>(*b))),
                                }
                            }
                            res
                        },
                        Err(e) => Err(e),
                    }
                };
                match res {
                    Ok(s) => {
                        lex = s.lexer;
                        values.push(s.value);
                        proof {
                            assert(forall|i: int|
                                0 <= i < values@.len() ==> #[trigger] parsed_by(parser0, values@[i]));
                        }
                        event = UntilEvent::Parsed(true);
                    },
                    Err(e) => {
                        pending = Some(*e);
                        event = UntilEvent::Parsed(false);
                    },
                }
            },
            UntilAction::Succeed => {
                return Ok(Success { lexer: lex, value: values });
            },
            UntilAction::Fail => {
                let e = match pending.take() {
                    Some(e) => e,
                    None => vstd::pervasive::unreached(),
                };
                return Err(Box::new(e));
            },
            UntilAction::Ignore => {
                return vstd::pervasive::unreached();
            },
        }
    }
}

/// Parses `low` to `high` items, as `intersperse` does, and gives how many
/// it parsed.
pub fn intersperse_count<'t, Sc: Scanner, X, T, Cx: Clone, F, H>(
    lexer: Lexer<'t, Sc>,
    ctx: &Cx,
    low: usize,
    high: Option<usize>,
    parser: F,
    inter_parser: H,
) -> (r: ParseResult<'t, Sc, usize>) where
    F: FnMut(Lexer<'t, Sc>, Cx) -> ParseResult<'t, Sc, X>,
    H: FnMut(Lexer<'t, Sc>, Cx) -> ParseResult<'t, Sc, T>,

    requires
        high matches Some(h) ==> low <= h,
        forall|l: Lexer<'t, Sc>, c: Cx| parser.requires((l, c)),
        forall|l: Lexer<'t, Sc>, c: Cx| inter_parser.requires((l, c)),
    ensures
        r matches Ok(s) ==> {
            &&& low <= s.value
            &&& high matches Some(h) ==> s.value <= h
            &&& s.value == 0 ==> s.lexer == lexer
        },
        r matches Err(e) ==> failed_with(parser, *e) || failed_with(inter_parser, *e),
{
    match intersperse(lexer, ctx, low, high, parser, inter_parser) {
        Ok(s) => Ok(Success { lexer: s.lexer, value: s.value.len() }),
        Err(e) => Err(e),
    }
}

/// Parses `low` to `high` items, as `intersperse_until` does, and gives how
/// many it parsed.
pub fn intersperse_count_until<'t, Sc: Scanner, V, U, T, Cx: Clone, G, F, H>(
    lexer: Lexer<'t, Sc>,
    ctx: &Cx,
    low: usize,
    high: Option<usize>,
    stop_parser: G,
    parser: F,
    inter_parser: H,
) -> (r: ParseResult<'t, Sc, usize>) where
    G: FnMut(Lexer<'t, Sc>, Cx) -> ParseResult<'t, Sc, V>,
    F: FnMut(Lexer<'t, Sc>, Cx) -> ParseResult<'t, Sc, U>,
    H: FnMut(Lexer<'t, Sc>, Cx) -> ParseResult<'t, Sc, T>,

    requires
        high matches Some(h) ==> low <= h,
        forall|l: Lexer<'t, Sc>, c: Cx| stop_parser.requires((l, c)),
        forall|l: Lexer<'t, Sc>, c: Cx| parser.requires((l, c)),
        forall|l: Lexer<'t, Sc>, c: Cx| inter_parser.requires((l, c)),
    ensures
        r matches Ok(s) ==> {
            &&& high matches Some(h) ==> s.value <= h
            &&& s.value < low ==> stopped_by(stop_parser)
            &&& s.value == 0 ==> s.lexer == lexer
        },
        r matches Err(e) ==> failed_with(parser, *e) || failed_with(inter_parser, *e),
{
    match intersperse_until(lexer, ctx, low, high, stop_parser, parser, inter_parser) {
        Ok(s) => Ok(Success { lexer: s.lexer, value: s.value.len() }),
        Err(e) => Err(e),
    }
}

/// Parses `low` to `high` items one after another, as `intersperse` does
/// with nothing between them.
pub fn repeat<'t, Sc: Scanner, X, Cx: Clone, F>(
    lexer: Lexer<'t, Sc>,
    ctx: &Cx,
    low: usize,
    high: Option<usize>,
    parser: F,
) -> (r: ParseResult<'t, Sc, Vec<X>>) where
    F: FnMut(Lexer<'t, Sc>, Cx) -> ParseResult<'t, Sc, X>,

    requires
        high matches Some(h) ==> low <= h,
        forall|l: Lexer<'t, Sc>, c: Cx| parser.requires((l, c)),
    ensures
        r matches Ok(s) ==> {
            &&& low <= s.value@.len()
            &&& high matches Some(h) ==> s.value@.len() <= h
            &&& forall|i: int| 0 <= i < s.value@.len() ==> #[trigger] parsed_by(parser, s.value@[i])
            &&& s.value@.len() == 0 ==> s.lexer == lexer
        },
        r matches Err(e) ==> failed_with(parser, *e),
{
    let nothing = |l: Lexer<'t, Sc>, c: Cx| -> (r: ParseResult<'t, Sc, ()>)
        ensures
            r is Ok,
        { empty(l) };
    let r = intersperse(lexer, ctx, low, high, parser, nothing);
    proof {
        lemma_never_fails(nothing, r);
    }
    r
}

/// Parses `low` to `high` items one after another, as `intersperse_until`
/// does with nothing between them.
pub fn repeat_until<'t, Sc: Scanner, V, U, Cx: Clone, G, F>(
    lexer: Lexer<'t, Sc>,
    ctx: &Cx,
    low: usize,
    high: Option<usize>,
    stop_parser: G,
    parser: F,
) -> (r: ParseResult<'t, Sc, Vec<U>>) where
    G: FnMut(Lexer<'t, Sc>, Cx) -> ParseResult<'t, Sc, V>,
    F: FnMut(Lexer<'t, Sc>, Cx) -> ParseResult<'t, Sc, U>,

    requires
        high matches Some(h) ==> low <= h,
        forall|l: Lexer<'t, Sc>, c: Cx| stop_parser.requires((l, c)),
        forall|l: Lexer<'t, Sc>, c: Cx| parser.requires((l, c)),
    ensures
        r matches Ok(s) ==> {
            &&& high matches Some(h) ==> s.value@.len() <= h
            &&& s.value@.len() < low ==> stopped_by(stop_parser)
            &&& forall|i: int| 0 <= i < s.value@.len() ==> #[trigger] parsed_by(parser, s.value@[i])
            &&& s.value@.len() == 0 ==> s.lexer == lexer
        },
        r matches Err(e) ==> failed_with(parser, *e),
{
    let nothing = |l: Lexer<'t, Sc>, c: Cx| -> (r: ParseResult<'t, Sc, ()>)
        ensures
            r is Ok,
        { empty(l) };
    let r = intersperse_until(lexer, ctx, low, high, stop_parser, parser, nothing);
    proof {
        lemma_never_fails(nothing, r);
    }
    r
}

/// Parses `low` to `high` items one after another, as `repeat` does, and
/// gives how many it parsed.
pub fn repeat_count<'t, Sc: Scanner, X, Cx: Clone, F>(
    lexer: Lexer<'t, Sc>,
    ctx: &Cx,
    low: usize,
    high: Option<usize>,
    parser: F,
) -> (r: ParseResult<'t, Sc, usize>) where
    F: FnMut(Lexer<'t, Sc>, Cx) -> ParseResult<'t, Sc, X>,

    requires
        high matches Some(h) ==> low <= h,
        forall|l: Lexer<'t, Sc>, c: Cx| parser.requires((l, c)),
    ensures
        r matches Ok(s) ==> {
            &&& low <= s.value
            &&& high matches Some(h) ==> s.value <= h
            &&& s.value == 0 ==> s.lexer == lexer
        },
        r matches Err(e) ==> failed_with(parser, *e),
{
    match repeat(lexer, ctx, low, high, parser) {
        Ok(s) => Ok(Success { lexer: s.lexer, value: s.value.len() }),
        Err(e) => Err(e),
    }
}

/// Parses `low` to `high` items one after another, as `repeat_until` does,
/// and gives how many it parsed.
pub fn repeat_count_until<'t, Sc: Scanner, V, U, Cx: Clone, G, F>(
    lexer: Lexer<'t, Sc>,
    ctx: &Cx,
    low: usize,
    high: Option<usize>,
    stop_parser: G,
    parser: F,
) -> (r: ParseResult<'t, Sc, usize>) where
    G: FnMut(Lexer<'t, Sc>, Cx) -> ParseResult<'t, Sc, V>,
    F: FnMut(Lexer<'t, Sc>, Cx) -> ParseResult<'t, Sc, U>,

    requires
        high matches Some(h) ==> low <= h,
        forall|l: Lexer<'t, Sc>, c: Cx| stop_parser.requires((l, c)),
        forall|l: Lexer<'t, Sc>, c: Cx| parser.requires((l, c)),
    ensures
        r matches Ok(s) ==> {
            &&& high matches Some(h) ==> s.value <= h
            &&& s.value < low ==> stopped_by(stop_parser)
            &&& s.value == 0 ==> s.lexer == lexer
        },
        r matches Err(e) ==> failed_with(parser, *e),
{
    match repeat_until(lexer, ctx, low, high, stop_parser, parser) {
        Ok(s) => Ok(Success { lexer: s.lexer, value: s.value.len() }),
        Err(e) => Err(e),
    }
}

/// A parser that always succeeds gives no error: an error of the
/// repetition it separates comes from elsewhere.
proof fn lemma_never_fails<'t, Sc: Scanner, X, Cx, H>(
    inter_parser: H,
    r: ParseResult<'t, Sc, X>,
) where
    H: FnMut(Lexer<'t, Sc>, Cx) -> ParseResult<'t, Sc, ()>,

    requires
        forall|l: Lexer<'t, Sc>, c: Cx, res: ParseResult<'t, Sc, ()>|
            #[trigger] call_ensures(inter_parser, (l, c), res) ==> res is Ok,
    ensures
        r matches Err(e) ==> !failed_with(inter_parser, *e),
{
}

} // verus!
