//! The step functions of the delimited parsers, run over concrete events.
use tephra::combinator::bracket_step;
use tephra::combinator::check_bracket_tokens;
use tephra::combinator::intersperse_step;
use tephra::combinator::list_step;
use tephra::combinator::BracketAction;
use tephra::combinator::BracketEvent;
use tephra::combinator::BracketFailure;
use tephra::combinator::BracketState;
use tephra::combinator::IntersperseAction;
use tephra::combinator::IntersperseEvent;
use tephra::combinator::IntersperseState;
use tephra::combinator::ListAction;
use tephra::combinator::ListEvent;
use tephra::combinator::ListPeek;
use tephra::combinator::ListPhase;
use tephra::combinator::ListState;
use tephra::combinator::TrailingItem;

#[test]
fn bracket_parses_between_found_brackets() {
    let (s, a) = bracket_step(BracketState::Searching, BracketEvent::Found(1));
    assert_eq!(a, BracketAction::ParseInner { index: 1 });
    let (s, a) = bracket_step(s, BracketEvent::Parsed(true));
    assert_eq!(a, BracketAction::Succeed { index: 1 });
    assert_eq!(s, BracketState::Finished);
}

#[test]
fn bracket_recovers_with_a_default_when_the_context_takes_the_error() {
    let (s, _) = bracket_step(BracketState::Searching, BracketEvent::Found(0));
    let (s, a) = bracket_step(s, BracketEvent::Parsed(false));
    assert_eq!(a, BracketAction::SendError);
    assert_eq!(s, BracketState::Reporting { index: 0 });
    let (s, a) = bracket_step(s, BracketEvent::Sent(true));
    assert_eq!(a, BracketAction::SucceedWithDefault { index: 0 });
    assert_eq!(s, BracketState::Finished);
}

#[test]
fn bracket_fails_when_the_context_hands_the_error_back() {
    let (s, _) = bracket_step(BracketState::Searching, BracketEvent::Found(2));
    let (s, _) = bracket_step(s, BracketEvent::Parsed(false));
    let (s, a) = bracket_step(s, BracketEvent::Sent(false));
    assert_eq!(a, BracketAction::Fail);
    assert_eq!(s, BracketState::Finished);
}

#[test]
fn bracket_fails_when_no_brackets_match() {
    for f in [BracketFailure::NoneFound, BracketFailure::Unopened, BracketFailure::Unclosed, BracketFailure::Mismatch] {
        let (s, a) = bracket_step(BracketState::Searching, BracketEvent::NotFound(f));
        assert_eq!(a, BracketAction::Unmatched(f));
        assert_eq!(s, BracketState::Finished);
    }
}

#[test]
fn bracket_ignores_events_out_of_turn() {
    let (s, a) = bracket_step(BracketState::Searching, BracketEvent::Parsed(true));
    assert_eq!(a, BracketAction::Ignore);
    assert_eq!(s, BracketState::Searching);
    let (s, a) = bracket_step(BracketState::Finished, BracketEvent::Found(0));
    assert_eq!(a, BracketAction::Ignore);
    assert_eq!(s, BracketState::Finished);
}

#[test]
fn bracket_tokens_must_pair_up_and_differ() {
    assert!(check_bracket_tokens(&vec!['(', '['], &vec![')', ']']));
    assert!(!check_bracket_tokens(&vec!['(', '['], &vec![')']));
    assert!(!check_bracket_tokens(&Vec::<char>::new(), &Vec::<char>::new()));
    assert!(!check_bracket_tokens(&vec!['|'], &vec!['|']));
}

fn run_list(mut s: ListState, events: &[ListEvent]) -> (ListState, Vec<String>) {
    let mut actions = Vec::new();
    for e in events {
        let (s2, a) = list_step(s, *e);
        actions.push(format!("{:?}", a));
        s = s2;
    }
    (s, actions)
}

#[test]
fn list_of_three_items() {
    let events = [
        ListEvent::Begin,
        ListEvent::Peeked(ListPeek::Token),
        ListEvent::Item(true),
        ListEvent::Peeked(ListPeek::Token),
        ListEvent::Empty(false),
        ListEvent::Separator(true),
        ListEvent::Peeked(ListPeek::Token),
        ListEvent::Item(true),
        ListEvent::Peeked(ListPeek::Token),
        ListEvent::Empty(false),
        ListEvent::Separator(true),
        ListEvent::Peeked(ListPeek::Token),
        ListEvent::Item(true),
        ListEvent::Peeked(ListPeek::End),
    ];
    let (s, actions) = run_list(ListState::new(0, None), &events);
    assert_eq!(s.count, 3);
    assert_eq!(s.phase, ListPhase::Finished);
    assert_eq!(actions.last().unwrap(), "Succeed");
    assert_eq!(actions[0], "Peek");
    assert_eq!(actions[1], "ParseItem");
    assert_eq!(actions[3], "CheckEmpty");
    assert_eq!(actions[4], "ParseSeparator");
}

#[test]
fn list_stops_at_the_upper_bound() {
    let events = [
        ListEvent::Begin,
        ListEvent::Peeked(ListPeek::Token),
        ListEvent::Item(true),
        ListEvent::Peeked(ListPeek::Token),
        ListEvent::Empty(false),
        ListEvent::Separator(true),
        ListEvent::Peeked(ListPeek::Token),
        ListEvent::Item(true),
    ];
    let (s, actions) = run_list(ListState::new(1, Some(2)), &events);
    assert_eq!(s.count, 2);
    assert_eq!(s.phase, ListPhase::Finished);
    assert_eq!(actions.last().unwrap(), "Succeed");
}

#[test]
fn list_with_too_few_items_reports_to_the_context() {
    let events = [ListEvent::Begin, ListEvent::Peeked(ListPeek::Token), ListEvent::Item(true), ListEvent::Peeked(ListPeek::End)];
    let (s, actions) = run_list(ListState::new(2, None), &events);
    assert_eq!(s.phase, ListPhase::AwaitSent);
    assert_eq!(actions.last().unwrap(), "SendCountError { found: 1, expected_min: 2, expected_max: None }");
    let (s2, a) = list_step(s, ListEvent::Sent(true));
    assert!(matches!(a, ListAction::Succeed));
    assert_eq!(s2.count, 1);
    let (_, a) = list_step(s, ListEvent::Sent(false));
    assert!(matches!(a, ListAction::Fail));
}

#[test]
fn list_tries_a_last_item_before_an_abort_token() {
    let events = [
        ListEvent::Begin,
        ListEvent::Peeked(ListPeek::Token),
        ListEvent::Item(true),
        ListEvent::Peeked(ListPeek::Token),
        ListEvent::Empty(false),
        ListEvent::Separator(true),
        ListEvent::Peeked(ListPeek::Abort),
    ];
    let (s, actions) = run_list(ListState::new(0, None), &events);
    assert_eq!(actions.last().unwrap(), "ParseTrailing");
    let (s2, a) = list_step(s, ListEvent::Trailing(TrailingItem::Value));
    assert!(matches!(a, ListAction::Succeed));
    assert_eq!(s2.count, 2);
    let (s3, a) = list_step(s, ListEvent::Trailing(TrailingItem::Nothing));
    assert!(matches!(a, ListAction::Succeed));
    assert_eq!(s3.count, 1);
    let (_, a) = list_step(s, ListEvent::Trailing(TrailingItem::Failed));
    assert!(matches!(a, ListAction::Fail));
}

#[test]
fn list_ends_at_an_abort_token_before_any_item() {
    let (_, actions) = run_list(ListState::new(0, None), &[ListEvent::Begin, ListEvent::Peeked(ListPeek::Abort)]);
    assert_eq!(actions.last().unwrap(), "Succeed");
}

#[test]
fn list_with_upper_bound_zero_parses_nothing() {
    let (s, actions) = run_list(ListState::new(3, Some(0)), &[ListEvent::Begin]);
    assert_eq!(actions[0], "EmptyParse");
    assert_eq!(s.count, 0);
}

fn run_intersperse(mut s: IntersperseState, parses: &[bool]) -> (IntersperseState, Vec<IntersperseAction>) {
    let (s2, a) = intersperse_step(s, IntersperseEvent::Begin);
    let mut actions = vec![a];
    s = s2;
    for p in parses {
        let (s2, a) = intersperse_step(s, IntersperseEvent::Parsed(*p));
        actions.push(a);
        s = s2;
    }
    (s, actions)
}

#[test]
fn intersperse_stops_at_the_first_failed_optional_item() {
    let (s, actions) = run_intersperse(IntersperseState::new(1, None), &[true, true, false]);
    assert_eq!(s, IntersperseState::Finished { count: 2 });
    assert_eq!(
        actions,
        vec![IntersperseAction::ParseFirst, IntersperseAction::ParseNext, IntersperseAction::ParseNext, IntersperseAction::Succeed]
    );
}

#[test]
fn intersperse_fails_below_the_lower_bound() {
    let (s, actions) = run_intersperse(IntersperseState::new(3, None), &[true, false]);
    assert_eq!(s, IntersperseState::Finished { count: 1 });
    assert_eq!(actions.last(), Some(&IntersperseAction::Fail));
}

#[test]
fn intersperse_stops_at_the_upper_bound() {
    let (s, actions) = run_intersperse(IntersperseState::new(0, Some(2)), &[true, true]);
    assert_eq!(s, IntersperseState::Finished { count: 2 });
    assert_eq!(actions.last(), Some(&IntersperseAction::Succeed));
}

#[test]
fn intersperse_gives_nothing_when_no_item_is_required() {
    let (s, actions) = run_intersperse(IntersperseState::new(0, None), &[false]);
    assert_eq!(s, IntersperseState::Finished { count: 0 });
    assert_eq!(actions.last(), Some(&IntersperseAction::SucceedEmpty));
    let (_, actions) = run_intersperse(IntersperseState::new(1, None), &[false]);
    assert_eq!(actions.last(), Some(&IntersperseAction::Fail));
    let (_, actions) = run_intersperse(IntersperseState::new(0, Some(0)), &[]);
    assert_eq!(actions, vec![IntersperseAction::SucceedEmpty]);
}

use tephra::combinator::intersperse_until_step;
use tephra::combinator::UntilAction;
use tephra::combinator::UntilEvent;
use tephra::combinator::UntilItem;
use tephra::combinator::UntilState;

fn run_until(mut s: UntilState, events: &[UntilEvent]) -> (UntilState, Vec<UntilAction>) {
    let mut actions = Vec::new();
    for e in events {
        let (s2, a) = intersperse_until_step(s, *e);
        actions.push(a);
        s = s2;
    }
    (s, actions)
}

#[test]
fn until_stops_where_the_stop_parse_succeeds() {
    let events = [
        UntilEvent::Begin,
        UntilEvent::Stopped(false),
        UntilEvent::Parsed(true),
        UntilEvent::Stopped(false),
        UntilEvent::Parsed(true),
        UntilEvent::Stopped(true),
    ];
    let (s, actions) = run_until(UntilState::new(0, None), &events);
    assert_eq!(s, UntilState::Finished { count: 2 });
    assert_eq!(
        actions,
        vec![
            UntilAction::CheckStop,
            UntilAction::ParseFirst,
            UntilAction::CheckStop,
            UntilAction::ParseNext,
            UntilAction::CheckStop,
            UntilAction::Succeed,
        ]
    );
}

#[test]
fn until_requires_items_below_the_lower_bound() {
    let events = [UntilEvent::Begin, UntilEvent::Stopped(false), UntilEvent::Parsed(true), UntilEvent::Stopped(false)];
    let (s, _) = run_until(UntilState::new(2, None), &events);
    assert_eq!(s, UntilState::AwaitItem { low: 2, high: None, count: 1, item: UntilItem::Required });
    let (s2, a) = intersperse_until_step(s, UntilEvent::Parsed(false));
    assert_eq!(a, UntilAction::Fail);
    assert_eq!(s2, UntilState::Finished { count: 1 });
}

#[test]
fn until_ends_quietly_at_a_failed_optional_item_and_at_the_upper_bound() {
    let events = [UntilEvent::Begin, UntilEvent::Stopped(false), UntilEvent::Parsed(true), UntilEvent::Stopped(false), UntilEvent::Parsed(false)];
    let (s, actions) = run_until(UntilState::new(1, None), &events);
    assert_eq!(s, UntilState::Finished { count: 1 });
    assert_eq!(actions.last(), Some(&UntilAction::Succeed));
    let events = [UntilEvent::Begin, UntilEvent::Stopped(false), UntilEvent::Parsed(true)];
    let (s, actions) = run_until(UntilState::new(0, Some(1)), &events);
    assert_eq!(s, UntilState::Finished { count: 1 });
    assert_eq!(actions.last(), Some(&UntilAction::Succeed));
    let (s, actions) = run_until(UntilState::new(0, Some(0)), &[UntilEvent::Begin]);
    assert_eq!(s, UntilState::Finished { count: 0 });
    assert_eq!(actions, vec![UntilAction::Succeed]);
}

#[test]
fn list_recovers_a_failed_item_with_the_default_value() {
    let events = [
        ListEvent::Begin,
        ListEvent::Peeked(ListPeek::Token),
        ListEvent::ItemRecoverable,
        ListEvent::Sent(true),
        ListEvent::Recovered(true),
        ListEvent::Peeked(ListPeek::End),
    ];
    let (s, actions) = run_list(ListState::new(0, None), &events);
    assert_eq!(actions[2], "SendError");
    assert_eq!(actions[3], "RecoverItem");
    assert_eq!(actions[4], "Peek");
    assert_eq!(actions.last().unwrap(), "Succeed");
    assert_eq!(s.count, 1);
}

#[test]
fn list_fails_when_recovery_is_refused_or_finds_nothing() {
    let events = [ListEvent::Begin, ListEvent::Peeked(ListPeek::Token), ListEvent::ItemRecoverable, ListEvent::Sent(false)];
    let (_, actions) = run_list(ListState::new(0, None), &events);
    assert_eq!(actions.last().unwrap(), "Fail");
    let events = [
        ListEvent::Begin,
        ListEvent::Peeked(ListPeek::Token),
        ListEvent::ItemRecoverable,
        ListEvent::Sent(true),
        ListEvent::Recovered(false),
    ];
    let (_, actions) = run_list(ListState::new(0, None), &events);
    assert_eq!(actions.last().unwrap(), "Fail");
}

#[test]
fn list_recovers_a_failed_separator() {
    let events = [
        ListEvent::Begin,
        ListEvent::Peeked(ListPeek::Token),
        ListEvent::Item(true),
        ListEvent::Peeked(ListPeek::Token),
        ListEvent::Empty(false),
        ListEvent::SeparatorRecoverable,
        ListEvent::Sent(true),
        ListEvent::Recovered(true),
    ];
    let (s, actions) = run_list(ListState::new(0, None), &events);
    assert_eq!(actions[5], "SendError");
    assert_eq!(actions[6], "RecoverSeparator");
    assert_eq!(actions[7], "Peek");
    assert_eq!(s.phase, ListPhase::AwaitPeek);
    assert_eq!(s.count, 1);
}

use tephra::combinator::delimited_list_step;

fn run_delimited(mut s: ListState, events: &[ListEvent]) -> (ListState, Vec<String>) {
    let mut actions = Vec::new();
    for e in events {
        let (s2, a) = delimited_list_step(s, *e);
        actions.push(format!("{:?}", a));
        s = s2;
    }
    (s, actions)
}

#[test]
fn delimited_list_checks_for_text_before_each_item() {
    let events = [
        ListEvent::Begin,
        ListEvent::Peeked(ListPeek::Token),
        ListEvent::Empty(false),
        ListEvent::Item(true),
        ListEvent::Peeked(ListPeek::Token),
        ListEvent::Empty(false),
        ListEvent::Separator(true),
        ListEvent::Peeked(ListPeek::Token),
        ListEvent::Empty(true),
    ];
    let (s, actions) = run_delimited(ListState::new(0, None), &events);
    assert_eq!(actions[1], "CheckEmpty");
    assert_eq!(actions[2], "ParseItem");
    assert_eq!(actions.last().unwrap(), "Succeed");
    assert_eq!(s.count, 1);
}

#[test]
fn delimited_list_ends_at_an_abort_token_with_a_default_item() {
    let events = [
        ListEvent::Begin,
        ListEvent::Peeked(ListPeek::Token),
        ListEvent::Empty(false),
        ListEvent::Item(true),
        ListEvent::Peeked(ListPeek::Token),
        ListEvent::Empty(false),
        ListEvent::Separator(true),
        ListEvent::Peeked(ListPeek::Abort),
        ListEvent::Empty(false),
        ListEvent::Item(false),
        ListEvent::Added,
    ];
    let (s, actions) = run_delimited(ListState::new(0, None), &events);
    assert_eq!(actions[7], "CheckEmpty");
    assert_eq!(actions[8], "ParseItem");
    assert_eq!(actions[9], "AddDefault");
    assert_eq!(actions.last().unwrap(), "Succeed");
    assert_eq!(s.count, 2);
}

#[test]
fn delimited_list_reports_the_error_of_an_aborted_item() {
    let events = [
        ListEvent::Begin,
        ListEvent::Peeked(ListPeek::Token),
        ListEvent::Empty(false),
        ListEvent::Item(true),
        ListEvent::Peeked(ListPeek::Token),
        ListEvent::Empty(false),
        ListEvent::Separator(true),
        ListEvent::Peeked(ListPeek::Abort),
        ListEvent::Empty(false),
        ListEvent::ItemRecoverable,
        ListEvent::Sent(false),
        ListEvent::Added,
    ];
    let (s, actions) = run_delimited(ListState::new(3, None), &events);
    assert_eq!(actions[9], "SendError");
    assert_eq!(actions[10], "AddDefault");
    assert_eq!(actions.last().unwrap(), "SendCountError { found: 2, expected_min: 3, expected_max: None }");
    assert_eq!(s.count, 2);
}
