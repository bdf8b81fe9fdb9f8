//! Object size canaries.
use tephra::ColumnMetrics;
use tephra::Lexer;
use tephra::LineEnding;
use tephra::ParseResult;
use tephra::Pos;
use tephra::Scanner;
use tephra::SourceText;
use tephra::SourceTextOwned;
use tephra::SourceTextRef;
use tephra::Span;
use tephra::Success;

#[derive(Debug, Clone, PartialEq)]
struct Void;

impl Scanner for Void {
    type Token = Void;

    fn scan(&mut self, _: SourceText<'_>, _: Pos) -> Option<(Self::Token, Pos)> {
        None
    }
}

#[test]
fn verify_lexer_size() {
    assert_eq!(std::mem::size_of::<Lexer<'_, Void>>(), 224);
}

#[test]
fn verify_pos_size() {
    assert_eq!(std::mem::size_of::<Pos>(), 24);
}

#[test]
fn verify_span_size() {
    assert_eq!(std::mem::size_of::<Span>(), 48);
}

#[test]
fn verify_success_size() {
    assert_eq!(std::mem::size_of::<Success<'_, Void, ()>>(), 224);
}

#[test]
fn verify_result_size() {
    assert_eq!(std::mem::size_of::<ParseResult<'_, Void, ()>>(), 224);
}

#[test]
fn verify_line_ending_size() {
    assert_eq!(std::mem::size_of::<LineEnding>(), 1);
}

#[test]
fn verify_column_metrics_size() {
    assert_eq!(std::mem::size_of::<ColumnMetrics>(), 2);
}

#[test]
fn verify_source_text_ref_size() {
    assert_eq!(std::mem::size_of::<SourceTextRef<'_>>(), 64);
}

#[test]
fn verify_source_text_owned_size() {
    assert_eq!(std::mem::size_of::<SourceTextOwned>(), 64);
}
