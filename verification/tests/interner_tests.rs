use kona::interner::Interner;
use kona::span::Span;
use kona::symbol::Symbol;
use kona::token::{Ident, Operator};

#[test]
fn interning_is_idempotent() {
    let mut interner = Interner::new();
    let a = interner.intern("let");
    let b = interner.intern("let");
    assert_eq!(a, b);
    assert_eq!(interner.get(a), "let");
}

#[test]
fn distinct_strings_get_distinct_symbols() {
    let mut interner = Interner::new();
    let a = interner.intern("alpha");
    let b = interner.intern("beta");
    let c = interner.intern("alpha");
    assert_ne!(a, b);
    assert_eq!(a, c);
    assert_eq!(interner.get(a), "alpha");
    assert_eq!(interner.get(b), "beta");
    assert_eq!(a.id, 0);
    assert_eq!(b.id, 1);
}

#[test]
fn symbol_round_trip() {
    let mut interner = Interner::new();
    let sym = Symbol::intern(&mut interner, "print");
    assert_eq!(sym.to_string(&interner), "print");
    assert_eq!(Symbol::new(0).id, 0);
}

#[test]
fn idents_share_symbols() {
    let mut interner = Interner::new();
    let x1 = Ident::from_str_with_dummy_span(&mut interner, "x");
    let x2 = Ident::from_str(&mut interner, "x", Span::dummy());
    assert_eq!(x1.name, x2.name);
    assert!(x1.span.is_dummy());

    let plus = Operator::from_str_with_dummy_span(&mut interner, "+");
    let plus2 = Operator::from_str(&mut interner, "+", Span::dummy());
    assert_eq!(plus.name, plus2.name);
    assert_ne!(plus.name, x1.name);
    assert!(plus.span.is_dummy());
}
