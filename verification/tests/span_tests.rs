use syntax::loc;
use syntax::span::{Span, Spanned, SpannedExt};

#[test]
fn compact_span_new_and_merge() {
    let a = loc::Span::new(2, 5);
    let b = loc::Span::new(4, 9);
    let m = a.merge(b);
    assert_eq!(m.start, 2);
    assert_eq!(m.end, 9);
    let n = b.merge(a);
    assert_eq!((n.start, n.end), (2, 9));
}

#[test]
fn compact_spanned_new_and_map() {
    let s = loc::Spanned::new(21u32, loc::Span::new(0, 2));
    assert_eq!(s.inner, 21);
    let doubled = s.map(|v| v * 2);
    assert_eq!(doubled.inner, 42);
    assert_eq!(doubled.span, loc::Span::new(0, 2));
}

#[test]
fn compact_spanned_borrow_and_respan() {
    let s = loc::Spanned::new(String::from("x"), loc::Span::new(1, 2));
    let borrowed = s.as_ref();
    assert_eq!(borrowed.inner, "x");
    assert_eq!(borrowed.span, loc::Span::new(1, 2));
    let moved = s.with_span(loc::Span::new(5, 6));
    assert_eq!(moved.inner, "x");
    assert_eq!(moved.span, loc::Span::new(5, 6));
}

#[test]
fn source_span_accessors() {
    let s = Span::new(3, 4..9);
    assert_eq!(s.src, 3);
    assert_eq!(s.start(), 4);
    assert_eq!(s.end(), 9);
    assert_eq!(s.len(), 5);
    assert!(!s.is_empty());
    assert!(Span::new(3, 7..7).is_empty());
}

#[test]
fn source_span_default_is_empty_at_origin() {
    let d = Span::default();
    assert_eq!(d, Span::new(0, 0..0));
    assert!(d.is_empty());
}

#[test]
fn source_span_merge_keeps_the_source() {
    let a = Span::new(1, 2..5);
    let b = Span::new(1, 7..9);
    let m = a.merge(b);
    assert_eq!(m, Span::new(1, 2..9));
}

#[test]
fn spanned_pairs_carry_their_span() {
    let p: Spanned<u32> = (7, Span::new(0, 1..3));
    assert_eq!(p.span(), Span::new(0, 1..3));
}
