use kona::char_spec::{
    display_width, is_digit, is_ident_head, is_ident_part, is_inline_space, is_line_break,
    is_operator_part, is_whitespace, utf8_len,
};
use kona::lexer::Lexer;
use kona::pos::Pos;
use kona::source_iter::SourceIter;
use kona::span::Span;
use kona::token::TokenKind;
use kona::token_iter::TokenIter;

#[test]
fn char_classes() {
    assert!(is_inline_space(' '));
    assert!(is_inline_space('\t'));
    assert!(is_inline_space('\0'));
    assert!(!is_inline_space('\n'));
    assert!(is_whitespace('\n'));
    assert!(is_whitespace('\r'));
    assert!(is_line_break('\r'));
    assert!(!is_line_break(' '));
    assert!(is_ident_head('_'));
    assert!(is_ident_head('q'));
    assert!(!is_ident_head('1'));
    assert!(is_ident_part('1'));
    assert!(is_operator_part('*'));
    assert!(is_operator_part('='));
    assert!(!is_operator_part('.'));
    assert!(is_digit('7'));
    assert!(!is_digit('a'));
}

#[test]
fn utf8_lengths_and_widths() {
    assert_eq!(utf8_len('a'), 1);
    assert_eq!(utf8_len('\u{00E9}'), 2);
    assert_eq!(utf8_len('\u{4E2D}'), 3);
    assert_eq!(utf8_len('\u{1F30A}'), 4);
    assert_eq!(display_width('a'), 1);
    assert_eq!(display_width('\t'), 4);
    assert_eq!(display_width('\u{0301}'), 0);
    assert_eq!(display_width('\u{4E2D}'), 2);
    assert_eq!(display_width('\u{1F30A}'), 2);
}

#[test]
fn pos_and_span_arithmetic() {
    let p = Pos::from_usize(10);
    assert_eq!(p.to_usize(), 10);
    assert_eq!(p.offset_by(5).to_usize(), 15);
    assert_eq!(p.sub(3).to_usize(), 7);

    let span = Span::new(Pos::from_usize(2), Pos::from_usize(6));
    assert_eq!(span.start().to_usize(), 2);
    assert_eq!(span.end().to_usize(), 6);
    assert!(!span.is_dummy());
    assert!(Span::dummy().is_dummy());
}

#[test]
fn lexer_cursor_tracks_byte_positions() {
    let mut lx = Lexer::new("a\u{00E9}b".to_string());
    assert_eq!(lx.pos(), 0);
    assert_eq!(lx.peek(), Some('a'));
    assert_eq!(lx.peek_nth(1), Some('\u{00E9}'));
    assert_eq!(lx.peek_nth(2), Some('b'));
    assert_eq!(lx.peek_nth(3), None);
    assert_eq!(lx.eat(), 'a');
    assert_eq!(lx.pos(), 1);
    assert_eq!(lx.eat(), '\u{00E9}');
    assert_eq!(lx.pos(), 3);
    assert_eq!(lx.eat(), 'b');
    assert_eq!(lx.pos(), 4);
    assert_eq!(lx.peek(), None);
}

#[test]
fn source_iter_spans_are_contiguous() {
    let mut it = SourceIter::new("ab cd", Pos::from_usize(50));
    assert!(!it.is_eof());
    assert_eq!(it.peek_fst(), 'a');
    assert_eq!(it.peek_snd(), 'b');
    it.eat();
    it.eat();
    assert_eq!(it.consumed_len(), 2);
    let s1 = it.consume_span();
    assert_eq!(s1.start().to_usize(), 50);
    assert_eq!(s1.end().to_usize(), 52);
    it.eat();
    let s2 = it.consume_span();
    assert_eq!(s2.start(), s1.end());
    it.eat();
    it.reset_consumed_len();
    assert_eq!(it.consumed_len(), 0);
}

#[test]
fn token_iter_filters_trivia() {
    let mut it = TokenIter::new("let x = 1 // bind\n", Pos::from_usize(0));
    let first = it.peek().unwrap();
    assert!(first.kind.is_keyword());
    // peeking does not consume
    assert_eq!(it.peek(), Some(first));
    assert_eq!(it.eat(), Some(first));
    let second = it.eat().unwrap();
    assert!(second.kind.is_ident());
    let third = it.eat().unwrap();
    assert!(third.kind.is_keyword());
    let fourth = it.eat().unwrap();
    assert!(fourth.kind.is_int_lit());
    // only the comment and line break remain: no more tokens
    assert_eq!(it.peek(), None);
    assert_eq!(it.eat(), None);
    // trivia never comes out of the filtered stream
    let mut ws = TokenIter::new("   ", Pos::from_usize(0));
    assert_eq!(ws.peek(), None);
    assert!(!matches!(
        TokenIter::new("(", Pos::from_usize(0)).eat().map(|t| t.kind),
        Some(TokenKind::Trivia(_))
    ));
}

#[test]
fn trivia_node_carries_kind_and_span() {
    let tr = kona::token::Trivia {
        kind: kona::token::TriviaKind::Eol,
        span: Span::new(Pos::from_usize(0), Pos::from_usize(1)),
    };
    assert_eq!(tr.kind, kona::token::TriviaKind::Eol);
    assert_eq!(tr.span.start().to_usize(), 0);
    assert_eq!(tr.span.end().to_usize(), 1);
}
