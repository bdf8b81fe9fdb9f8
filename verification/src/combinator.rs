//! The decisions of the delimited parsers: brackets with error recovery,
//! bounded lists and interspersed repetition. Each is a step function from
//! a state and what the last action gave to the next state and action; the
//! caller performs the actions, running the inner parsers and handing
//! errors to its parse context.
use vstd::prelude::*;
use vstd::std_specs::cmp::PartialEqSpec;
use crate::recover::contains_token;
use crate::recover::tokens_contain;
use crate::bracket::index_from;
use crate::bracket::token_index;
use vstd::pervasive::cloned;
use crate::error::ParseError;
use crate::error::lexer::Expected;
use crate::error::lexer::Found;
use crate::error::lexer::UnexpectedTokenError;
use crate::lexer::Lexer;
use crate::lexer::Scanner;
use crate::result::ParseResult;
use crate::result::Success;
use crate::span::Span;
use crate::span::enclosing;

verus! {

/// Why a search for matching brackets failed.
#[derive(Debug, Clone, Copy, PartialEq, Eq, Structural)]
pub enum BracketFailure {
    /// No open bracket came before the end of the search.
    NoneFound,
    /// A close bracket came before any open bracket.
    Unopened,
    /// The first open bracket was not closed.
    Unclosed,
    /// A close bracket did not match the last open bracket.
    Mismatch,
}

/// Where a bracketed parse stands.
#[derive(Debug, Clone, Copy, PartialEq, Eq, Structural)]
pub enum BracketState {
    /// The matching brackets are being searched for.
    Searching,
    /// The text between the brackets of kind `index` is being parsed.
    Parsing { index: usize },
    /// The inner parser's error has been handed to the parse context.
    Reporting { index: usize },
    /// The parse is over.
    Finished,
}

/// What the last action of a bracketed parse gave.
#[derive(Debug, Clone, Copy, PartialEq, Eq, Structural)]
pub enum BracketEvent {
    /// The search for matching brackets found the brackets of kind `index`.
    Found(usize),
    /// The search for matching brackets failed.
    NotFound(BracketFailure),
    /// The inner parser succeeded, or failed.
    Parsed(bool),
    /// The parse context took the inner parser's error and lets the parse
    /// recover, or handed it back.
    Sent(bool),
}

/// What a bracketed parse does next.
#[derive(Debug, Clone, Copy, PartialEq, Eq, Structural)]
pub enum BracketAction {
    /// Parse the text between the brackets of kind `index`.
    ParseInner { index: usize },
    /// Fail with an unmatched delimiter error of the given kind, at the
    /// lexer that the search began with.
    Unmatched(BracketFailure),
    /// Hand the inner parser's error to the parse context.
    SendError,
    /// Succeed with the inner parser's value and `index`, the lexer after
    /// the close bracket.
    Succeed { index: usize },
    /// Recover: succeed with the default value and `index`, the lexer after
    /// the close bracket.
    SucceedWithDefault { index: usize },
    /// Fail with the error that the parse context handed back, the lexer
    /// after the close bracket.
    Fail,
    /// The event does not belong to the state: nothing changes.
    Ignore,
}

/// One step of a bracketed parse.
pub open spec fn bracket_step_spec(s: BracketState, e: BracketEvent) -> (BracketState, BracketAction) {
    match (s, e) {
        (BracketState::Searching, BracketEvent::Found(index)) => (
            BracketState::Parsing { index },
            BracketAction::ParseInner { index },
        ),
        (BracketState::Searching, BracketEvent::NotFound(f)) => (
            BracketState::Finished,
            BracketAction::Unmatched(f),
        ),
        (BracketState::Parsing { index }, BracketEvent::Parsed(true)) => (
            BracketState::Finished,
            BracketAction::Succeed { index },
        ),
        (BracketState::Parsing { index }, BracketEvent::Parsed(false)) => (
            BracketState::Reporting { index },
            BracketAction::SendError,
        ),
        (BracketState::Reporting { index }, BracketEvent::Sent(true)) => (
            BracketState::Finished,
            BracketAction::SucceedWithDefault { index },
        ),
        (BracketState::Reporting { index }, BracketEvent::Sent(false)) => (
            BracketState::Finished,
            BracketAction::Fail,
        ),
        _ => (s, BracketAction::Ignore),
    }
}

/// Decides the next step of a bracketed parse: after the brackets are
/// found, parse between them; where the inner parser fails, hand its error
/// to the context and, if the context lets the parse recover, go on with
/// the default value after the close bracket.
pub fn bracket_step(s: BracketState, e: BracketEvent) -> (r: (BracketState, BracketAction))
    ensures
        r == bracket_step_spec(s, e),
{
    match (s, e) {
        (BracketState::Searching, BracketEvent::Found(index)) => (
            BracketState::Parsing { index },
            BracketAction::ParseInner { index },
        ),
        (BracketState::Searching, BracketEvent::NotFound(f)) => (
            BracketState::Finished,
            BracketAction::Unmatched(f),
        ),
        (BracketState::Parsing { index }, BracketEvent::Parsed(ok)) => if ok {
            (BracketState::Finished, BracketAction::Succeed { index })
        } else {
            (BracketState::Reporting { index }, BracketAction::SendError)
        },
        (BracketState::Reporting { index }, BracketEvent::Sent(ok)) => if ok {
            (BracketState::Finished, BracketAction::SucceedWithDefault { index })
        } else {
            (BracketState::Finished, BracketAction::Fail)
        },
        _ => (s, BracketAction::Ignore),
    }
}

/// A bracketed parse whose brackets are found ends after three steps at
/// most, and every way it ends keeps the index of the brackets: the inner
/// parser's failure is recovered from with the default value exactly
/// where the context takes the error.
pub proof fn lemma_bracket_recovers(index: usize, parsed: bool, sent: bool)
    ensures
        ({
            let (s1, a1) = bracket_step_spec(
                BracketState::Searching,
                BracketEvent::Found(index),
            );
            let (s2, a2) = bracket_step_spec(s1, BracketEvent::Parsed(parsed));
            let (s3, a3) = bracket_step_spec(s2, BracketEvent::Sent(sent));
            &&& a1 == BracketAction::ParseInner { index }
            &&& parsed ==> s2 == BracketState::Finished && a2 == BracketAction::Succeed { index }
            &&& !parsed ==> a2 == BracketAction::SendError && s3 == BracketState::Finished && a3
                == if sent {
                BracketAction::SucceedWithDefault { index }
            } else {
                BracketAction::Fail
            }
        }),
{
}

/// A failed search for brackets ends the parse with the error of the
/// search.
pub proof fn lemma_bracket_unmatched(f: BracketFailure)
    ensures
        bracket_step_spec(BracketState::Searching, BracketEvent::NotFound(f)) == (
            BracketState::Finished,
            BracketAction::Unmatched(f),
        ),
{
}

/// Whether the bracket tokens are usable: as many close tokens as open
/// ones, at least one, and no open token among the close tokens.
pub open spec fn bracket_tokens_valid<T: PartialEq>(open: Seq<T>, close: Seq<T>) -> bool {
    &&& open.len() > 0
    &&& open.len() == close.len()
    &&& forall|i: int| 0 <= i < open.len() ==> !contains_token(close, #[trigger] open[i])
}

/// Returns whether the bracket tokens are usable (see
/// `bracket_tokens_valid`); a bracketed parser is made only of usable
/// tokens.
pub fn check_bracket_tokens<T: PartialEq>(open: &Vec<T>, close: &Vec<T>) -> (r: bool)
    ensures
        T::obeys_eq_spec() ==> r == bracket_tokens_valid(open@, close@),
{
    if open.len() == 0 || open.len() != close.len() {
        return false;
    }
    let mut i: usize = 0;
    while i < open.len()
        invariant
            i <= open@.len(),
            T::obeys_eq_spec() ==> forall|j: int| 0 <= j < i ==> !contains_token(close@, #[trigger] open@[j]),
        decreases open@.len() - i,
    {
        if tokens_contain(close, &open[i]) {
            return false;
        }
        i = i + 1;
    }
    true
}

/// What a peek at the next token of a list found.
#[derive(Debug, Clone, Copy, PartialEq, Eq, Structural)]
pub enum ListPeek {
    /// No token follows.
    End,
    /// The next token is one on which the abort predicate holds.
    Abort,
    /// Another token follows.
    Token,
}

/// What the attempt at a last item, after an abort token, gave.
#[derive(Debug, Clone, Copy, PartialEq, Eq, Structural)]
pub enum TrailingItem {
    /// An item was parsed.
    Value,
    /// No item was there: the separator before was a trailing one.
    Nothing,
    /// The parse failed.
    Failed,
}

/// Where a list parse stands.
#[derive(Debug, Clone, Copy, PartialEq, Eq, Structural)]
pub enum ListPhase {
    /// Nothing has been done.
    Start,
    /// A peek before an item is under way.
    AwaitPeek,
    /// An item is being parsed.
    AwaitItem,
    /// A last item after an abort token is being parsed.
    AwaitTrailing,
    /// A peek after an item is under way.
    AwaitPeekAfter,
    /// Whether text remains is being checked.
    AwaitEmpty,
    /// A separator is being parsed.
    AwaitSeparator,
    /// An item count error has been handed to the parse context.
    AwaitSent,
    /// A failed item's error has been handed to the parse context.
    AwaitItemSent,
    /// The lexer is skipping to a recovery point after a failed item.
    AwaitItemRecovery,
    /// A failed separator's error has been handed to the parse context.
    AwaitSeparatorSent,
    /// The lexer is skipping to a recovery point after a failed separator.
    AwaitSeparatorRecovery,
    /// Whether text remains before an item is being checked.
    AwaitEmptyBefore,
    /// Whether text remains before a last item, at an abort token, is
    /// being checked.
    AwaitEmptyAborting,
    /// A last item, at an abort token, is being parsed.
    AwaitAbortedItem,
    /// The error of a last item, at an abort token, has been handed to the
    /// parse context.
    AwaitAbortedSent,
    /// The default value is being added for a last item at an abort token.
    AwaitAdded,
    /// The parse is over.
    Finished,
}

/// The state of a list parse: the bounds on the number of items, the
/// number parsed so far, and where it stands.
#[derive(Debug, Clone, Copy)]
pub struct ListState {
    /// The least number of items.
    pub low: usize,
    /// The greatest number of items, if any.
    pub high: Option<usize>,
    /// The number of items parsed.
    pub count: usize,
    /// Where the parse stands.
    pub phase: ListPhase,
}

/// What the last action of a list parse gave.
#[derive(Debug, Clone, Copy, PartialEq, Eq, Structural)]
pub enum ListEvent {
    /// The parse begins.
    Begin,
    /// A peek found what follows.
    Peeked(ListPeek),
    /// An item was parsed, or its parse failed with an error that allows
    /// no recovery.
    Item(bool),
    /// An item's parse failed with an error that allows recovery.
    ItemRecoverable,
    /// The attempt at a last item gave this.
    Trailing(TrailingItem),
    /// No text remains, or some does.
    Empty(bool),
    /// A separator was parsed, or its parse failed with an error that
    /// allows no recovery.
    Separator(bool),
    /// A separator's parse failed with an error that allows recovery.
    SeparatorRecoverable,
    /// The lexer reached a recovery point, or the text ended first.
    Recovered(bool),
    /// The default value was added as an item.
    Added,
    /// The parse context took the error handed to it and lets the parse
    /// go on, or handed it back.
    Sent(bool),
}

/// What a list parse does next.
#[derive(Debug, Clone, Copy)]
pub enum ListAction {
    /// Succeed with no items, parsing nothing.
    EmptyParse,
    /// Peek at the next token.
    Peek,
    /// Parse an item, recovering at a separator or abort token.
    ParseItem,
    /// Try to parse a last item before the abort token.
    ParseTrailing,
    /// Check whether text remains.
    CheckEmpty,
    /// Parse a separator, recovering at a separator or abort token.
    ParseSeparator,
    /// Hand the error of the failed parse to the parse context.
    SendError,
    /// Skip to before the next separator or abort token; the default value
    /// stands for the failed item.
    RecoverItem,
    /// Skip to before the next separator or abort token.
    RecoverSeparator,
    /// Add the default value as an item.
    AddDefault,
    /// Hand an item count error to the parse context: `found` items where
    /// `expected_min` to `expected_max` were expected.
    SendCountError { found: usize, expected_min: usize, expected_max: Option<usize> },
    /// Succeed with the items parsed.
    Succeed,
    /// Fail with the error at hand.
    Fail,
    /// The event does not belong to the state: nothing changes.
    Ignore,
}

/// Whether a list state is consistent: the items stay within the upper
/// bound, which lies at or above the lower one unless it is zero, and
/// while items may still come there is room for one more.
pub open spec fn list_wf(s: ListState) -> bool {
    &&& s.high matches Some(h) ==> s.count <= h && (h == 0 || s.low <= h)
    &&& s.phase == ListPhase::Start ==> s.count == 0
    &&& (s.phase != ListPhase::Start && s.phase != ListPhase::AwaitSent && s.phase
        != ListPhase::Finished) ==> (s.high matches Some(h) ==> s.count < h)
}

/// The end of a list parse: an item count error where too few items came,
/// else success.
pub open spec fn list_finish(s: ListState) -> (ListState, ListAction) {
    if s.count < s.low {
        (
            ListState { phase: ListPhase::AwaitSent, ..s },
            ListAction::SendCountError { found: s.count, expected_min: s.low, expected_max: s.high },
        )
    } else {
        (ListState { phase: ListPhase::Finished, ..s }, ListAction::Succeed)
    }
}

/// Whether the list holds as many items as it may.
pub open spec fn list_full(s: ListState) -> bool {
    s.high matches Some(h) && s.count >= h
}

/// Whether the event adds an item in the state it comes to: a parsed item,
/// an item recovered with the default value, a last item, or a default
/// item after an abort token.
pub open spec fn list_increments(s: ListState, e: ListEvent) -> bool {
    ||| s.phase == ListPhase::AwaitItem && e == ListEvent::Item(true)
    ||| s.phase == ListPhase::AwaitItemRecovery && e == ListEvent::Recovered(true)
    ||| s.phase == ListPhase::AwaitTrailing && e == ListEvent::Trailing(TrailingItem::Value)
    ||| s.phase == ListPhase::AwaitAdded && e == ListEvent::Added
}

/// One step of a list parse.
pub open spec fn list_step_spec(s: ListState, e: ListEvent) -> (ListState, ListAction) {
    let more = ListState { count: (s.count + 1) as usize, ..s };
    match (s.phase, e) {
        (ListPhase::Start, ListEvent::Begin) => if s.high == Some(0usize) {
            (ListState { phase: ListPhase::Finished, ..s }, ListAction::EmptyParse)
        } else {
            (ListState { phase: ListPhase::AwaitPeek, ..s }, ListAction::Peek)
        },
        (ListPhase::AwaitPeek, ListEvent::Peeked(ListPeek::End)) => list_finish(s),
        (ListPhase::AwaitPeek, ListEvent::Peeked(ListPeek::Abort)) => if s.count == 0 {
            list_finish(s)
        } else {
            (ListState { phase: ListPhase::AwaitTrailing, ..s }, ListAction::ParseTrailing)
        },
        (ListPhase::AwaitPeek, ListEvent::Peeked(ListPeek::Token)) => (
            ListState { phase: ListPhase::AwaitItem, ..s },
            ListAction::ParseItem,
        ),
        (ListPhase::AwaitTrailing, ListEvent::Trailing(TrailingItem::Value)) => list_finish(more),
        (ListPhase::AwaitTrailing, ListEvent::Trailing(TrailingItem::Nothing)) => list_finish(s),
        (ListPhase::AwaitTrailing, ListEvent::Trailing(TrailingItem::Failed)) => (
            ListState { phase: ListPhase::Finished, ..s },
            ListAction::Fail,
        ),
        (ListPhase::AwaitItem, ListEvent::Item(true)) => if list_full(more) {
            list_finish(more)
        } else {
            (ListState { phase: ListPhase::AwaitPeekAfter, ..more }, ListAction::Peek)
        },
        (ListPhase::AwaitItem, ListEvent::Item(false)) => (
            ListState { phase: ListPhase::Finished, ..s },
            ListAction::Fail,
        ),
        (ListPhase::AwaitItem, ListEvent::ItemRecoverable) => (
            ListState { phase: ListPhase::AwaitItemSent, ..s },
            ListAction::SendError,
        ),
        (ListPhase::AwaitItemSent, ListEvent::Sent(true)) => (
            ListState { phase: ListPhase::AwaitItemRecovery, ..s },
            ListAction::RecoverItem,
        ),
        (ListPhase::AwaitItemSent, ListEvent::Sent(false)) => (
            ListState { phase: ListPhase::Finished, ..s },
            ListAction::Fail,
        ),
        (ListPhase::AwaitItemRecovery, ListEvent::Recovered(true)) => if list_full(more) {
            list_finish(more)
        } else {
            (ListState { phase: ListPhase::AwaitPeekAfter, ..more }, ListAction::Peek)
        },
        (ListPhase::AwaitItemRecovery, ListEvent::Recovered(false)) => (
            ListState { phase: ListPhase::Finished, ..s },
            ListAction::Fail,
        ),
        (ListPhase::AwaitSeparator, ListEvent::SeparatorRecoverable) => (
            ListState { phase: ListPhase::AwaitSeparatorSent, ..s },
            ListAction::SendError,
        ),
        (ListPhase::AwaitSeparatorSent, ListEvent::Sent(true)) => (
            ListState { phase: ListPhase::AwaitSeparatorRecovery, ..s },
            ListAction::RecoverSeparator,
        ),
        (ListPhase::AwaitSeparatorSent, ListEvent::Sent(false)) => (
            ListState { phase: ListPhase::Finished, ..s },
            ListAction::Fail,
        ),
        (ListPhase::AwaitSeparatorRecovery, ListEvent::Recovered(true)) => (
            ListState { phase: ListPhase::AwaitPeek, ..s },
            ListAction::Peek,
        ),
        (ListPhase::AwaitSeparatorRecovery, ListEvent::Recovered(false)) => (
            ListState { phase: ListPhase::Finished, ..s },
            ListAction::Fail,
        ),
        (ListPhase::AwaitPeekAfter, ListEvent::Peeked(ListPeek::Token)) => (
            ListState { phase: ListPhase::AwaitEmpty, ..s },
            ListAction::CheckEmpty,
        ),
        (ListPhase::AwaitPeekAfter, ListEvent::Peeked(_)) => list_finish(s),
        (ListPhase::AwaitEmpty, ListEvent::Empty(true)) => list_finish(s),
        (ListPhase::AwaitEmpty, ListEvent::Empty(false)) => (
            ListState { phase: ListPhase::AwaitSeparator, ..s },
            ListAction::ParseSeparator,
        ),
        (ListPhase::AwaitSeparator, ListEvent::Separator(true)) => (
            ListState { phase: ListPhase::AwaitPeek, ..s },
            ListAction::Peek,
        ),
        (ListPhase::AwaitSeparator, ListEvent::Separator(false)) => (
            ListState { phase: ListPhase::Finished, ..s },
            ListAction::Fail,
        ),
        (ListPhase::AwaitSent, ListEvent::Sent(true)) => (
            ListState { phase: ListPhase::Finished, ..s },
            ListAction::Succeed,
        ),
        (ListPhase::AwaitSent, ListEvent::Sent(false)) => (
            ListState { phase: ListPhase::Finished, ..s },
            ListAction::Fail,
        ),
        _ => (s, ListAction::Ignore),
    }
}

impl ListState {
    /// The state of a list parse of `low` to `high` items that has not
    /// begun. An upper bound below the lower one is refused unless it is
    /// zero, which parses nothing.
    pub fn new(low: usize, high: Option<usize>) -> (r: ListState)
        requires
            high matches Some(h) ==> h == 0 || low <= h,
        ensures
            r == (ListState { low, high, count: 0, phase: ListPhase::Start }),
            list_wf(r),
    {
        ListState { low, high, count: 0, phase: ListPhase::Start }
    }
}

/// The end of a list parse, computed.
fn list_finish_of(s: ListState) -> (r: (ListState, ListAction))
    ensures
        r == list_finish(s),
{
    if s.count < s.low {
        (
            ListState { phase: ListPhase::AwaitSent, ..s },
            ListAction::SendCountError { found: s.count, expected_min: s.low, expected_max: s.high },
        )
    } else {
        (ListState { phase: ListPhase::Finished, ..s }, ListAction::Succeed)
    }
}

/// Decides the next step of a list parse: items separated by the
/// separator until no text remains, an abort token comes or the upper
/// bound is reached; after an abort token a last item is tried, and too
/// few items are reported to the parse context, which may let the parse
/// succeed all the same. An item or separator whose parse fails with a
/// recoverable error has its error handed to the parse context; where the
/// context takes it, the lexer skips to the next separator or abort token
/// and a failed item counts with the default value.
pub fn list_step(s: ListState, e: ListEvent) -> (r: (ListState, ListAction))
    requires
        list_wf(s),
        list_increments(s, e) ==> s.count < usize::MAX,
    ensures
        r == list_step_spec(s, e),
        list_wf(r.0),
{
    match (s.phase, e) {
        (ListPhase::Start, ListEvent::Begin) => match s.high {
            Some(0) => (ListState { phase: ListPhase::Finished, ..s }, ListAction::EmptyParse),
            _ => (ListState { phase: ListPhase::AwaitPeek, ..s }, ListAction::Peek),
        },
        (ListPhase::AwaitPeek, ListEvent::Peeked(p)) => match p {
            ListPeek::End => list_finish_of(s),
            ListPeek::Abort => if s.count == 0 {
                list_finish_of(s)
            } else {
                (ListState { phase: ListPhase::AwaitTrailing, ..s }, ListAction::ParseTrailing)
            },
            ListPeek::Token => (ListState { phase: ListPhase::AwaitItem, ..s }, ListAction::ParseItem),
        },
        (ListPhase::AwaitTrailing, ListEvent::Trailing(t)) => match t {
            TrailingItem::Value => list_finish_of(ListState { count: s.count + 1, ..s }),
            TrailingItem::Nothing => list_finish_of(s),
            TrailingItem::Failed => (ListState { phase: ListPhase::Finished, ..s }, ListAction::Fail),
        },
        (ListPhase::AwaitItem, ListEvent::ItemRecoverable) => (
            ListState { phase: ListPhase::AwaitItemSent, ..s },
            ListAction::SendError,
        ),
        (ListPhase::AwaitItemSent, ListEvent::Sent(ok)) => if ok {
            (ListState { phase: ListPhase::AwaitItemRecovery, ..s }, ListAction::RecoverItem)
        } else {
            (ListState { phase: ListPhase::Finished, ..s }, ListAction::Fail)
        },
        (ListPhase::AwaitSeparator, ListEvent::SeparatorRecoverable) => (
            ListState { phase: ListPhase::AwaitSeparatorSent, ..s },
            ListAction::SendError,
        ),
        (ListPhase::AwaitSeparatorSent, ListEvent::Sent(ok)) => if ok {
            (ListState { phase: ListPhase::AwaitSeparatorRecovery, ..s }, ListAction::RecoverSeparator)
        } else {
            (ListState { phase: ListPhase::Finished, ..s }, ListAction::Fail)
        },
        (ListPhase::AwaitSeparatorRecovery, ListEvent::Recovered(ok)) => if ok {
            (ListState { phase: ListPhase::AwaitPeek, ..s }, ListAction::Peek)
        } else {
            (ListState { phase: ListPhase::Finished, ..s }, ListAction::Fail)
        },
        (ListPhase::AwaitItemRecovery, ListEvent::Recovered(false)) => (
            ListState { phase: ListPhase::Finished, ..s },
            ListAction::Fail,
        ),
        (ListPhase::AwaitItem, ListEvent::Item(true)) | (
            ListPhase::AwaitItemRecovery,
            ListEvent::Recovered(true),
        ) => {
            let m = ListState { count: s.count + 1, ..s };
            let full = match m.high {
                Some(h) => m.count >= h,
                None => false,
            };
            if full {
                list_finish_of(m)
            } else {
                (ListState { phase: ListPhase::AwaitPeekAfter, ..m }, ListAction::Peek)
            }
        },
        (ListPhase::AwaitItem, ListEvent::Item(false)) => (
            ListState { phase: ListPhase::Finished, ..s },
            ListAction::Fail,
        ),
        (ListPhase::AwaitPeekAfter, ListEvent::Peeked(p)) => match p {
            ListPeek::Token => (ListState { phase: ListPhase::AwaitEmpty, ..s }, ListAction::CheckEmpty),
            _ => list_finish_of(s),
        },
        (ListPhase::AwaitEmpty, ListEvent::Empty(empty)) => if empty {
            list_finish_of(s)
        } else {
            (ListState { phase: ListPhase::AwaitSeparator, ..s }, ListAction::ParseSeparator)
        },
        (ListPhase::AwaitSeparator, ListEvent::Separator(ok)) => if ok {
            (ListState { phase: ListPhase::AwaitPeek, ..s }, ListAction::Peek)
        } else {
            (ListState { phase: ListPhase::Finished, ..s }, ListAction::Fail)
        },
        (ListPhase::AwaitSent, ListEvent::Sent(ok)) => if ok {
            (ListState { phase: ListPhase::Finished, ..s }, ListAction::Succeed)
        } else {
            (ListState { phase: ListPhase::Finished, ..s }, ListAction::Fail)
        },
        _ => (s, ListAction::Ignore),
    }
}

/// Every step of a list parse keeps the number of items within the upper
/// bound and adds at most one item; and a list parse that succeeds without
/// the parse context's leave holds at least the lower bound of items.
pub proof fn lemma_list_counts(s: ListState, e: ListEvent)
    requires
        list_wf(s),
        list_increments(s, e) ==> s.count < usize::MAX,
    ensures
        ({
            let (s2, a) = list_step_spec(s, e);
            &&& list_wf(s2)
            &&& s2.low == s.low && s2.high == s.high
            &&& s.count <= s2.count <= s.count + 1
            &&& s2.high matches Some(h) ==> s2.count <= h
            &&& (a matches ListAction::Succeed && s.phase != ListPhase::AwaitSent) ==> s.low
                <= s2.count
        }),
{
}

/// Where an interspersed repetition stands.
#[derive(Debug, Clone, Copy, PartialEq, Eq, Structural)]
pub enum IntersperseState {
    /// Nothing has been done.
    Start { low: usize, high: Option<usize> },
    /// The first item is being parsed.
    AwaitFirst { low: usize, high: Option<usize> },
    /// A separator and an item are being parsed, `count` items before them,
    /// fewer than the lower bound.
    AwaitRequired { low: usize, high: Option<usize>, count: usize },
    /// A separator and an item are being parsed, `count` items before them,
    /// at least the lower bound.
    AwaitOptional { low: usize, high: Option<usize>, count: usize },
    /// The repetition is over with `count` items.
    Finished { count: usize },
}

/// What the last action of an interspersed repetition gave.
#[derive(Debug, Clone, Copy, PartialEq, Eq, Structural)]
pub enum IntersperseEvent {
    /// The repetition begins.
    Begin,
    /// The parse succeeded, or failed.
    Parsed(bool),
}

/// What an interspersed repetition does next.
#[derive(Debug, Clone, Copy, PartialEq, Eq, Structural)]
pub enum IntersperseAction {
    /// Parse the first item.
    ParseFirst,
    /// Parse a separator and then an item.
    ParseNext,
    /// Succeed with the items parsed, after the last one.
    Succeed,
    /// Succeed with no items, where the repetition began.
    SucceedEmpty,
    /// Fail with the parse's error.
    Fail,
    /// The event does not belong to the state: nothing changes.
    Ignore,
}

/// After `count` items: a separator and an item are required below the
/// lower bound, tried below the upper one, and the repetition succeeds at
/// the upper bound.
pub open spec fn intersperse_next(low: usize, high: Option<usize>, count: usize) -> (
    IntersperseState,
    IntersperseAction,
) {
    if count < low {
        (IntersperseState::AwaitRequired { low, high, count }, IntersperseAction::ParseNext)
    } else if (match high {
        Some(h) => count < h,
        None => true,
    }) {
        (IntersperseState::AwaitOptional { low, high, count }, IntersperseAction::ParseNext)
    } else {
        (IntersperseState::Finished { count }, IntersperseAction::Succeed)
    }
}

/// One step of an interspersed repetition.
pub open spec fn intersperse_step_spec(s: IntersperseState, e: IntersperseEvent) -> (
    IntersperseState,
    IntersperseAction,
) {
    match (s, e) {
        (IntersperseState::Start { low, high }, IntersperseEvent::Begin) => if high == Some(0usize) {
            (IntersperseState::Finished { count: 0 }, IntersperseAction::SucceedEmpty)
        } else {
            (IntersperseState::AwaitFirst { low, high }, IntersperseAction::ParseFirst)
        },
        (IntersperseState::AwaitFirst { low, high }, IntersperseEvent::Parsed(true)) => intersperse_next(
            low,
            high,
            1,
        ),
        (IntersperseState::AwaitFirst { low, high }, IntersperseEvent::Parsed(false)) => if low == 0 {
            (IntersperseState::Finished { count: 0 }, IntersperseAction::SucceedEmpty)
        } else {
            (IntersperseState::Finished { count: 0 }, IntersperseAction::Fail)
        },
        (IntersperseState::AwaitRequired { low, high, count }, IntersperseEvent::Parsed(true)) => intersperse_next(
            low,
            high,
            (count + 1) as usize,
        ),
        (IntersperseState::AwaitRequired { count, .. }, IntersperseEvent::Parsed(false)) => (
            IntersperseState::Finished { count },
            IntersperseAction::Fail,
        ),
        (IntersperseState::AwaitOptional { low, high, count }, IntersperseEvent::Parsed(true)) => intersperse_next(
            low,
            high,
            (count + 1) as usize,
        ),
        (IntersperseState::AwaitOptional { count, .. }, IntersperseEvent::Parsed(false)) => (
            IntersperseState::Finished { count },
            IntersperseAction::Succeed,
        ),
        _ => (s, IntersperseAction::Ignore),
    }
}

/// Whether an interspersed repetition is consistent: the upper bound lies
/// at or above the lower one, the items parsed stay below the upper bound
/// while more may come, and the required ones below the lower bound.
pub open spec fn intersperse_wf(s: IntersperseState) -> bool {
    match s {
        IntersperseState::Start { low, high } => high matches Some(h) ==> low <= h,
        IntersperseState::AwaitFirst { low, high } => high matches Some(h) ==> low <= h && 0 < h,
        IntersperseState::AwaitRequired { low, high, count } => count < low && (high matches Some(
            h,
        ) ==> low <= h),
        IntersperseState::AwaitOptional { low, high, count } => low <= count && (high matches Some(
            h,
        ) ==> low <= h && count < h),
        IntersperseState::Finished { .. } => true,
    }
}

/// The bounds of an interspersed repetition that has not finished.
pub open spec fn intersperse_bounds(s: IntersperseState) -> (usize, Option<usize>) {
    match s {
        IntersperseState::Start { low, high } => (low, high),
        IntersperseState::AwaitFirst { low, high } => (low, high),
        IntersperseState::AwaitRequired { low, high, .. } => (low, high),
        IntersperseState::AwaitOptional { low, high, .. } => (low, high),
        IntersperseState::Finished { .. } => (0, None),
    }
}

impl IntersperseState {
    /// The state of a repetition of `low` to `high` items, interspersed
    /// with separators, that has not begun. An upper bound below the lower
    /// one is refused.
    pub fn new(low: usize, high: Option<usize>) -> (r: IntersperseState)
        requires
            high matches Some(h) ==> low <= h,
        ensures
            r == (IntersperseState::Start { low, high }),
            intersperse_wf(r),
    {
        IntersperseState::Start { low, high }
    }
}

/// The state and action after `count` items, computed.
fn intersperse_next_of(low: usize, high: Option<usize>, count: usize) -> (r: (
    IntersperseState,
    IntersperseAction,
))
    ensures
        r == intersperse_next(low, high, count),
{
    if count < low {
        (IntersperseState::AwaitRequired { low, high, count }, IntersperseAction::ParseNext)
    } else {
        let below = match high {
            Some(h) => count < h,
            None => true,
        };
        if below {
            (IntersperseState::AwaitOptional { low, high, count }, IntersperseAction::ParseNext)
        } else {
            (IntersperseState::Finished { count }, IntersperseAction::Succeed)
        }
    }
}

/// Decides the next step of an interspersed repetition: a first item, then
/// separators each followed by an item, required up to the lower bound and
/// tried up to the upper one. A failed first item gives no items where
/// none are required.
pub fn intersperse_step(s: IntersperseState, e: IntersperseEvent) -> (r: (
    IntersperseState,
    IntersperseAction,
))
    requires
        intersperse_wf(s),
        e == IntersperseEvent::Parsed(true) ==> (s matches IntersperseState::AwaitOptional { count, .. }
            ==> count < usize::MAX),
    ensures
        r == intersperse_step_spec(s, e),
        intersperse_wf(r.0),
{
    match (s, e) {
        (IntersperseState::Start { low, high }, IntersperseEvent::Begin) => match high {
            Some(0) => (IntersperseState::Finished { count: 0 }, IntersperseAction::SucceedEmpty),
            _ => (IntersperseState::AwaitFirst { low, high }, IntersperseAction::ParseFirst),
        },
        (IntersperseState::AwaitFirst { low, high }, IntersperseEvent::Parsed(ok)) => if ok {
            intersperse_next_of(low, high, 1)
        } else if low == 0 {
            (IntersperseState::Finished { count: 0 }, IntersperseAction::SucceedEmpty)
        } else {
            (IntersperseState::Finished { count: 0 }, IntersperseAction::Fail)
        },
        (IntersperseState::AwaitRequired { low, high, count }, IntersperseEvent::Parsed(ok)) => if ok {
            intersperse_next_of(low, high, count + 1)
        } else {
            (IntersperseState::Finished { count }, IntersperseAction::Fail)
        },
        (IntersperseState::AwaitOptional { low, high, count }, IntersperseEvent::Parsed(ok)) => if ok {
            intersperse_next_of(low, high, count + 1)
        } else {
            (IntersperseState::Finished { count }, IntersperseAction::Succeed)
        },
        _ => (s, IntersperseAction::Ignore),
    }
}

/// An interspersed repetition that succeeds holds between the lower and
/// the upper bound of items.
pub proof fn lemma_intersperse_counts(s: IntersperseState, e: IntersperseEvent)
    requires
        intersperse_wf(s),
    ensures
        ({
            let (s2, a) = intersperse_step_spec(s, e);
            let (low, high) = intersperse_bounds(s);
            &&& intersperse_wf(s2)
            &&& (a == IntersperseAction::Succeed || a == IntersperseAction::SucceedEmpty)
                ==> (s2 matches IntersperseState::Finished { count } && low <= count && (
            high matches Some(h) ==> count <= h))
        }),
{
}

/// Which item an interspersed repetition with a stop parse is at.
#[derive(Debug, Clone, Copy, PartialEq, Eq, Structural)]
pub enum UntilItem {
    /// The first item.
    First,
    /// An item below the lower bound.
    Required,
    /// An item at or above the lower bound.
    Optional,
}

/// Where an interspersed repetition with a stop parse stands.
#[derive(Debug, Clone, Copy, PartialEq, Eq, Structural)]
pub enum UntilState {
    /// Nothing has been done.
    Start { low: usize, high: Option<usize> },
    /// The stop parse before an item is being tried, `count` items before.
    AwaitStop { low: usize, high: Option<usize>, count: usize, item: UntilItem },
    /// An item (after a separator, but for the first) is being parsed,
    /// `count` items before.
    AwaitItem { low: usize, high: Option<usize>, count: usize, item: UntilItem },
    /// The repetition is over with `count` items.
    Finished { count: usize },
}

/// What the last action of an interspersed repetition with a stop parse
/// gave.
#[derive(Debug, Clone, Copy, PartialEq, Eq, Structural)]
pub enum UntilEvent {
    /// The repetition begins.
    Begin,
    /// The stop parse succeeded, or failed.
    Stopped(bool),
    /// The item's parse succeeded, or failed.
    Parsed(bool),
}

/// What an interspersed repetition with a stop parse does next.
#[derive(Debug, Clone, Copy, PartialEq, Eq, Structural)]
pub enum UntilAction {
    /// Try the stop parse, without consuming its text.
    CheckStop,
    /// Parse the first item.
    ParseFirst,
    /// Parse a separator and then an item.
    ParseNext,
    /// Succeed with the items parsed, after the last one (no items: where
    /// the repetition began).
    Succeed,
    /// Fail with the parse's error.
    Fail,
    /// The event does not belong to the state: nothing changes.
    Ignore,
}

/// After `count` items: try the stop parse before a required or an
/// optional item, or succeed at the upper bound.
pub open spec fn until_next(low: usize, high: Option<usize>, count: usize) -> (UntilState, UntilAction) {
    if count < low {
        (UntilState::AwaitStop { low, high, count, item: UntilItem::Required }, UntilAction::CheckStop)
    } else if (match high {
        Some(h) => count < h,
        None => true,
    }) {
        (UntilState::AwaitStop { low, high, count, item: UntilItem::Optional }, UntilAction::CheckStop)
    } else {
        (UntilState::Finished { count }, UntilAction::Succeed)
    }
}

/// One step of an interspersed repetition with a stop parse.
pub open spec fn until_step_spec(s: UntilState, e: UntilEvent) -> (UntilState, UntilAction) {
    match (s, e) {
        (UntilState::Start { low, high }, UntilEvent::Begin) => if high == Some(0usize) {
            (UntilState::Finished { count: 0 }, UntilAction::Succeed)
        } else {
            (UntilState::AwaitStop { low, high, count: 0, item: UntilItem::First }, UntilAction::CheckStop)
        },
        (UntilState::AwaitStop { count, .. }, UntilEvent::Stopped(true)) => (
            UntilState::Finished { count },
            UntilAction::Succeed,
        ),
        (UntilState::AwaitStop { low, high, count, item }, UntilEvent::Stopped(false)) => (
            UntilState::AwaitItem { low, high, count, item },
            if item == UntilItem::First {
                UntilAction::ParseFirst
            } else {
                UntilAction::ParseNext
            },
        ),
        (UntilState::AwaitItem { low, high, count, .. }, UntilEvent::Parsed(true)) => until_next(
            low,
            high,
            (count + 1) as usize,
        ),
        (UntilState::AwaitItem { count, item, .. }, UntilEvent::Parsed(false)) => if item
            == UntilItem::Optional {
            (UntilState::Finished { count }, UntilAction::Succeed)
        } else {
            (UntilState::Finished { count }, UntilAction::Fail)
        },
        _ => (s, UntilAction::Ignore),
    }
}

/// Whether an interspersed repetition with a stop parse is consistent:
/// the upper bound lies at or above the lower one, and the items parsed
/// stay below it while more may come.
pub open spec fn until_wf(s: UntilState) -> bool {
    match s {
        UntilState::Start { low, high } => high matches Some(h) ==> low <= h,
        UntilState::AwaitStop { low, high, count, item } | UntilState::AwaitItem {
            low,
            high,
            count,
            item,
        } => {
            &&& high matches Some(h) ==> low <= h && count < h
            &&& item == UntilItem::First ==> count == 0
            &&& item == UntilItem::Required ==> 0 < count < low
            &&& item == UntilItem::Optional ==> 0 < count && low <= count
        },
        UntilState::Finished { .. } => true,
    }
}

/// The upper bound of a repetition that has not finished.
pub open spec fn until_high(s: UntilState) -> Option<usize> {
    match s {
        UntilState::Start { high, .. } => high,
        UntilState::AwaitStop { high, .. } => high,
        UntilState::AwaitItem { high, .. } => high,
        UntilState::Finished { .. } => None,
    }
}

impl UntilState {
    /// The state of a repetition of `low` to `high` items, interspersed
    /// with separators and ended by a stop parse, that has not begun. An
    /// upper bound below the lower one is refused.
    pub fn new(low: usize, high: Option<usize>) -> (r: UntilState)
        requires
            high matches Some(h) ==> low <= h,
        ensures
            r == (UntilState::Start { low, high }),
            until_wf(r),
    {
        UntilState::Start { low, high }
    }
}

/// The state and action after `count` items, computed.
fn until_next_of(low: usize, high: Option<usize>, count: usize) -> (r: (UntilState, UntilAction))
    ensures
        r == until_next(low, high, count),
{
    if count < low {
        (UntilState::AwaitStop { low, high, count, item: UntilItem::Required }, UntilAction::CheckStop)
    } else {
        let below = match high {
            Some(h) => count < h,
            None => true,
        };
        if below {
            (UntilState::AwaitStop { low, high, count, item: UntilItem::Optional }, UntilAction::CheckStop)
        } else {
            (UntilState::Finished { count }, UntilAction::Succeed)
        }
    }
}

/// Decides the next step of an interspersed repetition that ends where a
/// stop parse succeeds: before each item the stop parse is tried, and its
/// success ends the repetition with the items so far; items below the
/// lower bound are required, those up to the upper bound tried.
pub fn intersperse_until_step(s: UntilState, e: UntilEvent) -> (r: (UntilState, UntilAction))
    requires
        until_wf(s),
        e == UntilEvent::Parsed(true) ==> (s matches UntilState::AwaitItem { count, .. } ==> count
            < usize::MAX),
    ensures
        r == until_step_spec(s, e),
        until_wf(r.0),
{
    match (s, e) {
        (UntilState::Start { low, high }, UntilEvent::Begin) => match high {
            Some(0) => (UntilState::Finished { count: 0 }, UntilAction::Succeed),
            _ => (
                UntilState::AwaitStop { low, high, count: 0, item: UntilItem::First },
                UntilAction::CheckStop,
            ),
        },
        (UntilState::AwaitStop { low, high, count, item }, UntilEvent::Stopped(stopped)) => if stopped {
            (UntilState::Finished { count }, UntilAction::Succeed)
        } else {
            let action = match item {
                UntilItem::First => UntilAction::ParseFirst,
                _ => UntilAction::ParseNext,
            };
            (UntilState::AwaitItem { low, high, count, item }, action)
        },
        (UntilState::AwaitItem { low, high, count, item }, UntilEvent::Parsed(ok)) => if ok {
            until_next_of(low, high, count + 1)
        } else {
            match item {
                UntilItem::Optional => (UntilState::Finished { count }, UntilAction::Succeed),
                _ => (UntilState::Finished { count }, UntilAction::Fail),
            }
        },
        _ => (s, UntilAction::Ignore),
    }
}

/// An interspersed repetition with a stop parse never holds more items
/// than its upper bound, and one that ends without the stop parse holds
/// at least its lower bound.
pub proof fn lemma_until_counts(s: UntilState, e: UntilEvent)
    requires
        until_wf(s),
        e == UntilEvent::Parsed(true) ==> (s matches UntilState::AwaitItem { count, .. } ==> count
            < usize::MAX),
    ensures
        ({
            let (s2, a) = until_step_spec(s, e);
            &&& until_wf(s2)
            &&& (a == UntilAction::Succeed) ==> (s2 matches UntilState::Finished { count } && (
            until_high(s) matches Some(h) ==> count <= h))
            &&& (a == UntilAction::Succeed && e matches UntilEvent::Parsed(_)) ==> (
            s2 matches UntilState::Finished { count } && (s matches UntilState::AwaitItem {
                low,
                ..
            } ==> low <= count))
        }),
{
}

/// The error of a parse of one token `token` from `lexer` that found
/// `found` at `token_span`.
pub open spec fn unexpected<'t, Sc: Scanner>(
    lexer: Lexer<'t, Sc>,
    token: Sc::Token,
    token_span: Span,
    found: Found<Sc::Token>,
) -> ParseError<Sc::Token> {
    ParseError::UnexpectedToken(
        UnexpectedTokenError {
            parse_span: enclosing(lexer.parse_start, lexer.cursor),
            token_span,
            expected: Expected::Token(token),
            found,
        },
    )
}

/// Parses one token that equals `token`: the next token of the lexer. At
/// the end of the text, or where it is another token, the parse fails with
/// an unexpected token error.
pub fn one<'t, Sc: Scanner>(lexer: Lexer<'t, Sc>, token: Sc::Token) -> (r: ParseResult<'t, Sc, Sc::Token>)
    ensures
        r matches Err(e) ==> *e matches ParseError::UnexpectedToken(_),
        lexer.at_end() ==> r == Err::<Success<'t, Sc, Sc::Token>, Box<ParseError<Sc::Token>>>(
            Box::new(unexpected(lexer, token, enclosing(lexer.cursor, lexer.cursor), Found::EndOfText)),
        ),
        Sc::Token::obeys_eq_spec() && !lexer.at_end() ==> ({
            let (after, t) = lexer.next_spec();
            r == match t {
                None => Err(
                    Box::new(unexpected(lexer, token, enclosing(after.cursor, after.cursor), Found::EndOfText)),
                ),
                Some(x) => if x.eq_spec(&token) {
                    Ok(Success { lexer: after, value: x })
                } else {
                    Err(
                        Box::new(
                            unexpected(
                                lexer,
                                token,
                                enclosing(after.token_start, after.cursor),
                                Found::Token(x),
                            ),
                        ),
                    )
                },
            }
        }),
{
    let parse_span = lexer.parse_span();
    let mut lexer = lexer;
    match lexer.next() {
        None => {
            let at = Span::new_at(lexer.cursor_pos());
            Err(
                Box::new(
                    ParseError::UnexpectedToken(
                        UnexpectedTokenError {
                            parse_span,
                            token_span: at,
                            expected: Expected::Token(token),
                            found: Found::EndOfText,
                        },
                    ),
                ),
            )
        },
        Some(lex) => {
            if lex == token {
                Ok(Success { lexer, value: lex })
            } else {
                let token_span = lexer.token_span();
                Err(
                    Box::new(
                        ParseError::UnexpectedToken(
                            UnexpectedTokenError {
                                parse_span,
                                token_span,
                                expected: Expected::Token(token),
                                found: Found::Token(lex),
                            },
                        ),
                    ),
                )
            }
        },
    }
}

/// One step of a delimited list parse: as a list parse, but the end of the
/// text is checked before each item, and after an abort token a last item
/// is parsed and stands as the default value whatever its parse gives.
pub open spec fn delimited_list_step_spec(s: ListState, e: ListEvent) -> (ListState, ListAction) {
    let more = ListState { count: (s.count + 1) as usize, ..s };
    match (s.phase, e) {
        (ListPhase::AwaitPeek, ListEvent::Peeked(ListPeek::Abort)) => if s.count == 0 {
            list_finish(s)
        } else {
            (ListState { phase: ListPhase::AwaitEmptyAborting, ..s }, ListAction::CheckEmpty)
        },
        (ListPhase::AwaitPeek, ListEvent::Peeked(ListPeek::Token)) => (
            ListState { phase: ListPhase::AwaitEmptyBefore, ..s },
            ListAction::CheckEmpty,
        ),
        (ListPhase::AwaitEmptyBefore, ListEvent::Empty(true)) => list_finish(s),
        (ListPhase::AwaitEmptyAborting, ListEvent::Empty(true)) => list_finish(s),
        (ListPhase::AwaitEmptyBefore, ListEvent::Empty(false)) => (
            ListState { phase: ListPhase::AwaitItem, ..s },
            ListAction::ParseItem,
        ),
        (ListPhase::AwaitEmptyAborting, ListEvent::Empty(false)) => (
            ListState { phase: ListPhase::AwaitAbortedItem, ..s },
            ListAction::ParseItem,
        ),
        (ListPhase::AwaitAbortedItem, ListEvent::Item(_)) => (
            ListState { phase: ListPhase::AwaitAdded, ..s },
            ListAction::AddDefault,
        ),
        (ListPhase::AwaitAbortedItem, ListEvent::ItemRecoverable) => (
            ListState { phase: ListPhase::AwaitAbortedSent, ..s },
            ListAction::SendError,
        ),
        (ListPhase::AwaitAbortedSent, ListEvent::Sent(_)) => (
            ListState { phase: ListPhase::AwaitAdded, ..s },
            ListAction::AddDefault,
        ),
        (ListPhase::AwaitAdded, ListEvent::Added) => list_finish(more),
        _ => list_step_spec(s, e),
    }
}

/// Decides the next step of a delimited list parse (see
/// `delimited_list_step_spec`); the other steps are those of `list_step`.
pub fn delimited_list_step(s: ListState, e: ListEvent) -> (r: (ListState, ListAction))
    requires
        list_wf(s),
        list_increments(s, e) ==> s.count < usize::MAX,
    ensures
        r == delimited_list_step_spec(s, e),
        list_wf(r.0),
{
    match (s.phase, e) {
        (ListPhase::AwaitPeek, ListEvent::Peeked(ListPeek::Abort)) => if s.count == 0 {
            list_finish_of(s)
        } else {
            (ListState { phase: ListPhase::AwaitEmptyAborting, ..s }, ListAction::CheckEmpty)
        },
        (ListPhase::AwaitPeek, ListEvent::Peeked(ListPeek::Token)) => (
            ListState { phase: ListPhase::AwaitEmptyBefore, ..s },
            ListAction::CheckEmpty,
        ),
        (ListPhase::AwaitEmptyBefore, ListEvent::Empty(empty)) => if empty {
            list_finish_of(s)
        } else {
            (ListState { phase: ListPhase::AwaitItem, ..s }, ListAction::ParseItem)
        },
        (ListPhase::AwaitEmptyAborting, ListEvent::Empty(empty)) => if empty {
            list_finish_of(s)
        } else {
            (ListState { phase: ListPhase::AwaitAbortedItem, ..s }, ListAction::ParseItem)
        },
        (ListPhase::AwaitAbortedItem, ListEvent::Item(_)) => (
            ListState { phase: ListPhase::AwaitAdded, ..s },
            ListAction::AddDefault,
        ),
        (ListPhase::AwaitAbortedItem, ListEvent::ItemRecoverable) => (
            ListState { phase: ListPhase::AwaitAbortedSent, ..s },
            ListAction::SendError,
        ),
        (ListPhase::AwaitAbortedSent, ListEvent::Sent(_)) => (
            ListState { phase: ListPhase::AwaitAdded, ..s },
            ListAction::AddDefault,
        ),
        (ListPhase::AwaitAdded, ListEvent::Added) => list_finish_of(
            ListState { count: s.count + 1, ..s },
        ),
        _ => list_step(s, e),
    }
}

/// Every step of a delimited list parse keeps the number of items within
/// the upper bound and adds at most one item; and one that succeeds
/// without the parse context's leave holds at least the lower bound of
/// items.
pub proof fn lemma_delimited_list_counts(s: ListState, e: ListEvent)
    requires
        list_wf(s),
        list_increments(s, e) ==> s.count < usize::MAX,
    ensures
        ({
            let (s2, a) = delimited_list_step_spec(s, e);
            &&& list_wf(s2)
            &&& s2.low == s.low && s2.high == s.high
            &&& s.count <= s2.count <= s.count + 1
            &&& s2.high matches Some(h) ==> s2.count <= h
            &&& (a matches ListAction::Succeed && s.phase != ListPhase::AwaitSent) ==> s.low
                <= s2.count
        }),
{
    lemma_list_counts(s, e);
}

/// Copies a token slice into a vector, each token a clone of the one in
/// its place.
fn token_vec<T: Clone>(tokens: &[T]) -> (r: Vec<T>)
    ensures
        r@.len() == tokens@.len(),
        forall|i: int| 0 <= i < tokens@.len() ==> cloned(tokens@[i], #[trigger] r@[i]),
{
    let mut v: Vec<T> = Vec::new();
    let mut i: usize = 0;
    while i < tokens.len()
        invariant
            i <= tokens@.len(),
            v@.len() == i,
            forall|j: int| 0 <= j < i ==> cloned(tokens@[j], #[trigger] v@[j]),
        decreases tokens@.len() - i,
    {
        v.push(tokens[i].clone());
        i = i + 1;
    }
    v
}

/// Whether `e` is the error of a parse of one of `tokens` from `lexer` that
/// found `found` at `token_span`: the expected tokens are clones of
/// `tokens`.
pub open spec fn unexpected_any<'t, Sc: Scanner>(
    lexer: Lexer<'t, Sc>,
    tokens: Seq<Sc::Token>,
    token_span: Span,
    found: Found<Sc::Token>,
    e: ParseError<Sc::Token>,
) -> bool {
    &&& e matches ParseError::UnexpectedToken(u)
    &&& u.parse_span == enclosing(lexer.parse_start, lexer.cursor)
    &&& u.token_span == token_span
    &&& u.found == found
    &&& u.expected matches Expected::Tokens(v)
    &&& v@.len() == tokens.len()
    &&& forall|i: int| 0 <= i < tokens.len() ==> cloned(tokens[i], #[trigger] v@[i])
}

/// What a parse of one of `tokens` gives from a lexer that is not at the
/// end: the index of the first of them equal to the next token, with the
/// lexer after it; or the error that the next token, or the end of the
/// text, is none of them.
pub open spec fn any_outcome<'t, Sc: Scanner>(
    lexer: Lexer<'t, Sc>,
    tokens: Seq<Sc::Token>,
    r: ParseResult<'t, Sc, usize>,
) -> bool {
    let (after, t) = lexer.next_spec();
    match t {
        None => r matches Err(e) && unexpected_any(
            lexer,
            tokens,
            enclosing(after.cursor, after.cursor),
            Found::EndOfText,
            *e,
        ),
        Some(x) => match index_from(tokens, x, 0) {
            Some(i) => r matches Ok(s) && s.lexer == after && s.value == i,
            None => r matches Err(e) && unexpected_any(
                lexer,
                tokens,
                enclosing(after.token_start, after.cursor),
                Found::Token(x),
                *e,
            ),
        },
    }
}

/// Parses one token that is any of `tokens`, giving its index among them
/// (the first equal one).
pub fn any_index<'t, Sc: Scanner>(lexer: Lexer<'t, Sc>, tokens: &[Sc::Token]) -> (r: ParseResult<'t, Sc, usize>)
    requires
        tokens@.len() > 0,
    ensures
        r matches Ok(s) ==> s.value < tokens@.len(),
        r matches Err(e) ==> *e matches ParseError::UnexpectedToken(_),
        lexer.at_end() ==> (r matches Err(e) && unexpected_any(
            lexer,
            tokens@,
            enclosing(lexer.cursor, lexer.cursor),
            Found::EndOfText,
            *e,
        )),
        Sc::Token::obeys_eq_spec() && !lexer.at_end() ==> any_outcome(lexer, tokens@, r),
{
    let parse_span = lexer.parse_span();
    let mut lexer = lexer;
    match lexer.next() {
        None => {
            let at = Span::new_at(lexer.cursor_pos());
            Err(
                Box::new(
                    ParseError::UnexpectedToken(
                        UnexpectedTokenError {
                            parse_span,
                            token_span: at,
                            expected: Expected::Tokens(token_vec(tokens)),
                            found: Found::EndOfText,
                        },
                    ),
                ),
            )
        },
        Some(lex) => match token_index(tokens, &lex) {
            Some(i) => Ok(Success { lexer, value: i }),
            None => {
                let token_span = lexer.token_span();
                Err(
                    Box::new(
                        ParseError::UnexpectedToken(
                            UnexpectedTokenError {
                                parse_span,
                                token_span,
                                expected: Expected::Tokens(token_vec(tokens)),
                                found: Found::Token(lex),
                            },
                        ),
                    ),
                )
            },
        },
    }
}

/// Parses one token that is any of `tokens`, giving the token parsed.
pub fn any<'t, Sc: Scanner>(lexer: Lexer<'t, Sc>, tokens: &[Sc::Token]) -> (r: ParseResult<'t, Sc, Sc::Token>)
    requires
        tokens@.len() > 0,
    ensures
        r matches Err(e) ==> *e matches ParseError::UnexpectedToken(_),
        lexer.at_end() ==> (r matches Err(e) && unexpected_any(
            lexer,
            tokens@,
            enclosing(lexer.cursor, lexer.cursor),
            Found::EndOfText,
            *e,
        )),
        Sc::Token::obeys_eq_spec() && !lexer.at_end() ==> ({
            let (after, t) = lexer.next_spec();
            match t {
                None => r matches Err(e) && unexpected_any(
                    lexer,
                    tokens@,
                    enclosing(after.cursor, after.cursor),
                    Found::EndOfText,
                    *e,
                ),
                Some(x) => if index_from(tokens@, x, 0) is Some {
                    r matches Ok(s) && s.lexer == after && cloned(tokens@[index_from(tokens@, x, 0)->0], s.value)
                } else {
                    r matches Err(e) && unexpected_any(
                        lexer,
                        tokens@,
                        enclosing(after.token_start, after.cursor),
                        Found::Token(x),
                        *e,
                    )
                },
            }
        }),
{
    match any_index(lexer, tokens) {
        Ok(s) => {
            let t = tokens[s.value].clone();
            proof {
                assert(cloned(tokens@[s.value as int], t));
            }
            Ok(Success { lexer: s.lexer, value: t })
        },
        Err(e) => Err(e),
    }
}

/// A run of `seq` from `lexer` over `tokens`, with `found` parsed before:
/// the lexer it ends with, the tokens found, and, where it fails, the
/// index of the token it expected (counted from the end of `tokens`), what
/// it found and where.
pub open spec fn seq_run<'t, Sc: Scanner>(
    lexer: Lexer<'t, Sc>,
    tokens: Seq<Sc::Token>,
    found: Seq<Sc::Token>,
) -> (Lexer<'t, Sc>, Seq<Sc::Token>, Option<(int, Found<Sc::Token>, Span)>)
    decreases tokens.len(),
{
    if tokens.len() == 0 {
        (lexer, found, None)
    } else if lexer.at_end() {
        (lexer, found, Some((tokens.len() as int, Found::EndOfText, enclosing(lexer.cursor, lexer.cursor))))
    } else {
        let (after, t) = lexer.next_spec();
        match t {
            None => (after, found, Some((tokens.len() as int, Found::EndOfText, enclosing(after.cursor, after.cursor)))),
            Some(x) => if x.eq_spec(&tokens[0]) {
                seq_run(after, tokens.drop_first(), found.push(x))
            } else {
                (after, found, Some((tokens.len() as int, Found::Token(x), enclosing(after.token_start, after.cursor))))
            },
        }
    }
}

/// Parses `tokens` one after another, giving the tokens found; the error
/// names the first token that is not found, with the span of the parse
/// where it began.
pub fn seq<'t, Sc: Scanner>(lexer: Lexer<'t, Sc>, tokens: &[Sc::Token]) -> (r: ParseResult<'t, Sc, Vec<Sc::Token>>)
    ensures
        r matches Err(e) ==> *e matches ParseError::UnexpectedToken(_),
        Sc::Token::obeys_eq_spec() ==> ({
            let (last, found, failure) = seq_run(lexer, tokens@, Seq::empty());
            match failure {
                None => r matches Ok(s) && s.lexer == last && s.value@ == found,
                Some((k, what, span)) => {
                    &&& r matches Err(e)
                    &&& *r->Err_0 matches ParseError::UnexpectedToken(u)
                    &&& u.parse_span == enclosing(lexer.parse_start, lexer.cursor)
                    &&& u.token_span == span
                    &&& u.found == what
                    &&& u.expected matches Expected::Token(t)
                    &&& cloned(tokens@[tokens@.len() - k], t)
                },
            }
        }),
{
    let parse_span = lexer.parse_span();
    let ghost lexer0 = lexer;
    let mut cur = lexer;
    let mut found: Vec<Sc::Token> = Vec::new();
    let mut i: usize = 0;
    proof {
        assert(tokens@.skip(0) =~= tokens@);
        assert(found@ =~= Seq::<Sc::Token>::empty());
    }
    while i < tokens.len()
        invariant
            i <= tokens@.len(),
            lexer0 == lexer,
            parse_span == enclosing(lexer0.parse_start, lexer0.cursor),
            Sc::Token::obeys_eq_spec() ==> seq_run(lexer0, tokens@, Seq::empty()) == seq_run(
                cur,
                tokens@.skip(i as int),
                found@,
            ),
        decreases tokens@.len() - i,
    {
        let ghost l0 = cur;
        let ghost rest = tokens@.skip(i as int);
        proof {
            assert(rest.len() > 0 && rest[0] == tokens@[i as int]);
            assert(rest.drop_first() =~= tokens@.skip(i + 1));
        }
        match cur.next() {
            None => {
                let token_span = Span::new_at(cur.cursor_pos());
                let expected = tokens[i].clone();
                proof {
                    assert(cloned(tokens@[i as int], expected));
                    assert(tokens@.len() - rest.len() == i);
                    if Sc::Token::obeys_eq_spec() {
                        if !l0.at_end() {
                            assert((cur, None::<Sc::Token>) == l0.next_spec());
                        }
                        assert(seq_run(l0, rest, found@).2 == Some(
                            (rest.len() as int, Found::<Sc::Token>::EndOfText, token_span),
                        ));
                    }
                }
                return Err(
                    Box::new(
                        ParseError::UnexpectedToken(
                            UnexpectedTokenError {
                                parse_span,
                                token_span,
                                expected: Expected::Token(expected),
                                found: Found::EndOfText,
                            },
                        ),
                    ),
                );
            },
            Some(lex) => {
                if lex == tokens[i] {
                    let ghost found0 = found@;
                    found.push(lex);
                    proof {
                        if Sc::Token::obeys_eq_spec() {
                            assert((cur, Some(lex)) == l0.next_spec());
                            assert(seq_run(l0, rest, found0) == seq_run(cur, rest.drop_first(), found@));
                        }
                    }
                    i = i + 1;
                } else {
                    let token_span = cur.token_span();
                    let expected = tokens[i].clone();
                    proof {
                        assert(cloned(tokens@[i as int], expected));
                        assert(tokens@.len() - rest.len() == i);
                        if Sc::Token::obeys_eq_spec() {
                            assert((cur, Some(lex)) == l0.next_spec());
                            assert(!lex.eq_spec(&rest[0]));
                            assert(seq_run(l0, rest, found@).2 == Some(
                                (rest.len() as int, Found::Token(lex), token_span),
                            ));
                        }
                    }
                    return Err(
                        Box::new(
                            ParseError::UnexpectedToken(
                                UnexpectedTokenError {
                                    parse_span,
                                    token_span,
                                    expected: Expected::Token(expected),
                                    found: Found::Token(lex),
                                },
                            ),
                        ),
                    );
                }
            },
        }
    }
    proof {
        assert(tokens@.skip(i as int) =~= Seq::<Sc::Token>::empty());
    }
    Ok(Success { lexer: cur, value: found })
}

/// Parses nothing: succeeds with the lexer as it is.
pub fn empty<'t, Sc: Scanner>(lexer: Lexer<'t, Sc>) -> (r: ParseResult<'t, Sc, ()>)
    ensures
        r == Ok::<Success<'t, Sc, ()>, Box<ParseError<Sc::Token>>>(Success { lexer, value: () }),
{
    Ok(Success { lexer, value: () })
}

} // verus!
