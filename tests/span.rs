use chip8_toolchain::span::Span;

#[test]
fn span_union_laws() {
    let a = Span { start: 3, end: 7 };
    let b = Span { start: 5, end: 12 };
    let c = Span { start: 0, end: 1 };
    assert_eq!(a.union(&b), Span { start: 3, end: 12 });
    assert_eq!(a.union(&b), b.union(&a));
    assert_eq!(a.union(&b).union(&c), a.union(&b.union(&c)));
    let u = a.union(&c);
    assert!(u.start <= u.end);
    let mut m = a;
    m.mut_union(&c);
    assert_eq!(m, Span { start: 0, end: 7 });
}
