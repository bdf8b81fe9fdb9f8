//! The library's laws, checked on concrete values.
use tephra::ColumnMetrics;
use tephra::Page;
use tephra::Pos;
use tephra::Recover;
use tephra::SourceText;
use tephra::Span;
use tephra::recover_after;
use tephra::recover_before;

fn page(line: usize, column: usize) -> Page {
    Page { line, column }
}

#[test]
fn page_shift_is_associative() {
    let a = page(2, 5);
    let b = page(0, 3);
    let c = page(1, 4);
    assert_eq!(a.shifted(b).shifted(c), a.shifted(b.shifted(c)));
    assert_eq!(a.shifted(b), page(2, 8));
    assert_eq!(a.shifted(c), page(3, 4));
}

#[test]
fn pos_order_is_total() {
    let a = Pos::new(3, 0, 3);
    let b = Pos::new(5, 1, 0);
    assert!(a.is_before(b));
    assert!(!b.is_before(a));
    assert!(a.is_at_or_before(a));
    assert!(!a.is_before(a));
}

#[test]
fn previous_position_undoes_next_position() {
    let text = "ab\u{65e5}c";
    let metrics = ColumnMetrics::new();
    let mut p = Pos::zero();
    while let Some(q) = metrics.next_position(text, p) {
        if q.byte > text.len() || q == p {
            break;
        }
        assert_eq!(metrics.previous_position(text, q), Some(p));
        p = q;
        if p.byte == text.len() {
            break;
        }
    }
    assert_eq!(p, Pos::new(6, 0, 5));
}

#[test]
fn line_end_stays_on_the_line() {
    let text = "ab\ncd";
    let metrics = ColumnMetrics::new();
    let end = metrics.line_end_position(text, Pos::new(1, 0, 1));
    assert_eq!(end, Pos::new(2, 0, 2));
    let start = metrics.line_start_position(text, Pos::new(4, 1, 1));
    assert_eq!(start, Pos::new(3, 1, 0));
}

#[test]
fn span_contains_its_boundaries() {
    let s = Span::new_enclosing(Pos::new(2, 0, 2), Pos::new(5, 0, 5));
    assert!(s.contains(&Pos::new(2, 0, 2)));
    assert!(s.contains(&Pos::new(5, 0, 5)));
    assert!(!s.contains(&Pos::new(6, 0, 6)));
}

#[test]
fn span_intersects_is_symmetric() {
    let a = Span::new_enclosing(Pos::new(0, 0, 0), Pos::new(3, 0, 3));
    let b = Span::new_enclosing(Pos::new(3, 0, 3), Pos::new(6, 0, 6));
    let c = Span::new_enclosing(Pos::new(4, 0, 4), Pos::new(6, 0, 6));
    assert_eq!(a.intersects(b), b.intersects(a));
    assert!(a.intersects(b));
    assert_eq!(a.intersects(c), c.intersects(a));
    assert!(!a.intersects(c));
}

#[test]
fn span_enclose_covers_both() {
    let a = Span::new_enclosing(Pos::new(4, 0, 4), Pos::new(6, 0, 6));
    let b = Span::new_enclosing(Pos::new(1, 0, 1), Pos::new(2, 0, 2));
    let e = a.enclose(b);
    assert_eq!(e, Span::new_enclosing(Pos::new(1, 0, 1), Pos::new(6, 0, 6)));
    assert_eq!(b.enclose(a), e);
}

#[test]
fn span_intersect_lies_within_both() {
    let a = Span::new_enclosing(Pos::new(0, 0, 0), Pos::new(4, 0, 4));
    let b = Span::new_enclosing(Pos::new(2, 0, 2), Pos::new(6, 0, 6));
    let i = a.intersect(b).unwrap();
    assert_eq!(i, Span::new_enclosing(Pos::new(2, 0, 2), Pos::new(4, 0, 4)));
    let far = Span::new_enclosing(Pos::new(8, 0, 8), Pos::new(9, 0, 9));
    assert_eq!(a.intersect(far), None);
}

#[test]
fn span_minus_keeps_the_left_part() {
    let a = Span::new_enclosing(Pos::new(0, 0, 0), Pos::new(4, 0, 4));
    let b = Span::new_enclosing(Pos::new(2, 0, 2), Pos::new(6, 0, 6));
    let mut parts = a.minus(b);
    assert_eq!(parts.next(), Some(Span::new_enclosing(Pos::new(0, 0, 0), Pos::new(2, 0, 2))));
    assert_eq!(parts.next(), None);
}

#[test]
fn span_minus_splits_at_an_empty_span() {
    let a = Span::new_enclosing(Pos::new(0, 0, 0), Pos::new(4, 0, 4));
    let b = Span::new_at(Pos::new(1, 0, 1));
    let mut parts = a.minus(b);
    assert_eq!(parts.next(), Some(Span::new_enclosing(Pos::new(0, 0, 0), Pos::new(1, 0, 1))));
    assert_eq!(parts.next(), Some(Span::new_enclosing(Pos::new(1, 0, 1), Pos::new(4, 0, 4))));
    assert_eq!(parts.next(), None);
}

#[test]
fn span_minus_keeps_the_right_part() {
    let a = Span::new_enclosing(Pos::new(2, 0, 2), Pos::new(8, 0, 8));
    let b = Span::new_enclosing(Pos::new(0, 0, 0), Pos::new(5, 0, 5));
    let mut parts = a.minus(b);
    assert_eq!(parts.next(), Some(Span::new_enclosing(Pos::new(5, 0, 5), Pos::new(8, 0, 8))));
    assert_eq!(parts.next(), None);
}

#[test]
fn span_union_of_disjoint_spans_keeps_both() {
    let a = Span::new_enclosing(Pos::new(0, 0, 0), Pos::new(1, 0, 1));
    let b = Span::new_enclosing(Pos::new(3, 0, 3), Pos::new(4, 0, 4));
    let mut parts = a.union(b);
    assert_eq!(parts.next(), Some(a));
    assert_eq!(parts.next(), Some(b));
    assert_eq!(parts.next(), None);
}

#[test]
fn widen_to_line_is_idempotent() {
    let source = SourceText::new("ab\ncdef\ng");
    let s = Span::new_enclosing(Pos::new(4, 1, 1), Pos::new(5, 1, 2));
    let w = s.widen_to_line(source);
    assert_eq!(w.to_string(), "1:0-1:4, bytes 3-7");
    assert_eq!(w.widen_to_line(source), w);
}

#[test]
fn recover_after_resumes_after_the_token() {
    let mut r: Recover<u8> = recover_after(7);
    assert_eq!(r.call(1), Ok(false));
    assert_eq!(r.call(7), Ok(false));
    assert_eq!(r.call(2), Ok(true));
}

#[test]
fn recover_before_resumes_at_the_token() {
    let mut r: Recover<u8> = recover_before(7);
    assert_eq!(r.call(1), Ok(false));
    assert_eq!(r.call(7), Ok(true));
}

#[test]
fn byte_and_page_spans_as_text() {
    let s = Span::new_enclosing(Pos::new(3, 1, 0), Pos::new(7, 2, 2));
    assert_eq!(s.byte.to_string(), "3-7");
    assert_eq!(s.page.to_string(), "1:0-2:2");
    let e = Span::new_at(Pos::new(4, 0, 4));
    assert_eq!(e.byte.to_string(), "4");
    assert_eq!(e.page.to_string(), "0:4");
    assert_eq!(Pos::new(12, 3, 4).to_string(), "3:4, byte 12");
    assert_eq!(tephra::fmt::decimal_string(1024), "1024");
    assert_eq!(tephra::fmt::decimal_string(0), "0");
}
