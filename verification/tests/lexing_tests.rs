use kona::lexing::tokenize;
use kona::pos::Pos;
use kona::token::{IdentKind, Keyword, LitKind, Token, TokenKind, TriviaKind};

fn kinds(input: &str) -> Vec<TokenKind> {
    tokenize(input, Pos::from_usize(0)).into_iter().map(|t| t.kind).collect::<Vec<_>>()
}

#[test]
fn space_and_tab_test() {
    assert_eq!(kinds("     "), [TokenKind::Trivia(TriviaKind::Whitespace)]);

    assert_eq!(kinds("\t\t\t\t\t"), [TokenKind::Trivia(TriviaKind::Whitespace)]);

    assert_eq!(kinds(" \t \t \t "), [TokenKind::Trivia(TriviaKind::Whitespace)]);
}

#[test]
fn line_break_test() {
    assert_eq!(kinds("\n"), [TokenKind::Trivia(TriviaKind::Eol)]);

    assert_eq!(kinds("\r\n"), [TokenKind::Trivia(TriviaKind::Eol)]);

    assert_eq!(kinds("\r"), [TokenKind::Trivia(TriviaKind::Eol)]);

    assert_eq!(
        kinds("\n\n\n\n"),
        [
            TokenKind::Trivia(TriviaKind::Eol),
            TokenKind::Trivia(TriviaKind::Eol),
            TokenKind::Trivia(TriviaKind::Eol),
            TokenKind::Trivia(TriviaKind::Eol),
        ]
    );

    assert_eq!(
        kinds("\r\r\r\r"),
        [
            TokenKind::Trivia(TriviaKind::Eol),
            TokenKind::Trivia(TriviaKind::Eol),
            TokenKind::Trivia(TriviaKind::Eol),
            TokenKind::Trivia(TriviaKind::Eol),
        ]
    );

    assert_eq!(
        kinds("\n\r\r\n"),
        [
            TokenKind::Trivia(TriviaKind::Eol),
            TokenKind::Trivia(TriviaKind::Eol),
            TokenKind::Trivia(TriviaKind::Eol),
        ]
    );

    assert_eq!(
        kinds(" \n "),
        [
            TokenKind::Trivia(TriviaKind::Whitespace),
            TokenKind::Trivia(TriviaKind::Eol),
            TokenKind::Trivia(TriviaKind::Whitespace),
        ]
    );
}

#[test]
fn single_line_comment_test() {
    assert_eq!(
        kinds("42 // some commit"),
        [
            TokenKind::Lit(LitKind::Int),
            TokenKind::Trivia(TriviaKind::Whitespace),
            TokenKind::Trivia(TriviaKind::SingleLineComment),
        ]
    );

    assert_eq!(
        kinds("42 //some commit"),
        [
            TokenKind::Lit(LitKind::Int),
            TokenKind::Trivia(TriviaKind::Whitespace),
            TokenKind::Trivia(TriviaKind::SingleLineComment),
        ]
    );

    assert_eq!(kinds("//////////"), [TokenKind::Trivia(TriviaKind::SingleLineComment)]);

    assert_eq!(
        kinds("// commit\n"),
        [
            TokenKind::Trivia(TriviaKind::SingleLineComment),
            TokenKind::Trivia(TriviaKind::Eol),
        ]
    );
}

#[test]
fn whitespace_single_token_span() {
    let tokens = tokenize("     ", Pos::from_usize(0));
    assert_eq!(tokens.len(), 1);
    assert_eq!(tokens[0].kind, TokenKind::Trivia(TriviaKind::Whitespace));
    assert_eq!(tokens[0].span.start.index, 0);
    assert_eq!(tokens[0].span.end.index, 5);
}

#[test]
fn let_binding_token_stream() {
    let tokens = tokenize("let x = 1 in x end", Pos::from_usize(0));
    let expected = [
        TokenKind::Keyword(Keyword::Let),
        TokenKind::Trivia(TriviaKind::Whitespace),
        TokenKind::Ident(IdentKind::Alphanumeric),
        TokenKind::Trivia(TriviaKind::Whitespace),
        TokenKind::Keyword(Keyword::Eq),
        TokenKind::Trivia(TriviaKind::Whitespace),
        TokenKind::Lit(LitKind::Int),
        TokenKind::Trivia(TriviaKind::Whitespace),
        TokenKind::Keyword(Keyword::In),
        TokenKind::Trivia(TriviaKind::Whitespace),
        TokenKind::Ident(IdentKind::Alphanumeric),
        TokenKind::Trivia(TriviaKind::Whitespace),
        TokenKind::Keyword(Keyword::End),
    ];
    let got: Vec<TokenKind> = tokens.iter().map(|t| t.kind).collect();
    assert_eq!(got, expected);
    // the spans are contiguous and gap-free over the whole input
    assert_eq!(tokens[0].span.start.index, 0);
    for i in 0..tokens.len() - 1 {
        assert_eq!(tokens[i].span.end, tokens[i + 1].span.start);
    }
    assert_eq!(tokens[tokens.len() - 1].span.end.index, 18);
}

#[test]
fn unterminated_string_is_one_token() {
    let tokens = tokenize("\"unterminated", Pos::from_usize(0));
    assert_eq!(tokens.len(), 1);
    assert_eq!(tokens[0].kind, TokenKind::Lit(LitKind::Str { terminated: false }));
    assert_eq!(tokens[0].span.start.index, 0);
    assert_eq!(tokens[0].span.end.index, 13);
}

#[test]
fn terminated_string_with_escapes() {
    assert_eq!(
        kinds("\"a\\n\\\"b\\\\\""),
        [TokenKind::Lit(LitKind::Str { terminated: true })]
    );
}

#[test]
fn string_stops_at_raw_line_break() {
    assert_eq!(
        kinds("\"abc\ndef"),
        [
            TokenKind::Lit(LitKind::Str { terminated: false }),
            TokenKind::Trivia(TriviaKind::Eol),
            TokenKind::Ident(IdentKind::Alphanumeric),
        ]
    );
}

#[test]
fn string_line_continuation() {
    // backslash, line break, inline space, then a backslash resumes
    assert_eq!(
        kinds("\"ab\\\n   \\cd\""),
        [TokenKind::Lit(LitKind::Str { terminated: true })]
    );
    // without the resuming backslash the literal is unterminated
    assert_eq!(
        kinds("\"ab\\\n   cd\""),
        [
            TokenKind::Lit(LitKind::Str { terminated: false }),
            TokenKind::Ident(IdentKind::Alphanumeric),
            TokenKind::Lit(LitKind::Str { terminated: false }),
        ]
    );
}

#[test]
fn block_comment_nests() {
    assert_eq!(
        kinds("/- a /- b -/ c -/"),
        [TokenKind::Trivia(TriviaKind::MultiLineComment { terminated: true })]
    );
    assert_eq!(
        kinds("/- open /- inner"),
        [TokenKind::Trivia(TriviaKind::MultiLineComment { terminated: false })]
    );
}

#[test]
fn number_lookahead() {
    assert_eq!(kinds("42"), [TokenKind::Lit(LitKind::Int)]);
    assert_eq!(kinds("3.14"), [TokenKind::Lit(LitKind::Float)]);
    // a trailing dot is not part of the number
    assert_eq!(kinds("3."), [TokenKind::Lit(LitKind::Int), TokenKind::Invalid]);
    assert_eq!(
        kinds("3.x"),
        [
            TokenKind::Lit(LitKind::Int),
            TokenKind::Invalid,
            TokenKind::Ident(IdentKind::Alphanumeric),
        ]
    );
}

#[test]
fn keywords_and_operators() {
    assert_eq!(kinds("else"), [TokenKind::Keyword(Keyword::Else)]);
    assert_eq!(kinds("end"), [TokenKind::Keyword(Keyword::End)]);
    assert_eq!(kinds("fn"), [TokenKind::Keyword(Keyword::Fn)]);
    assert_eq!(kinds("if"), [TokenKind::Keyword(Keyword::If)]);
    assert_eq!(kinds("then"), [TokenKind::Keyword(Keyword::Then)]);
    assert_eq!(kinds("val"), [TokenKind::Keyword(Keyword::Val)]);
    assert_eq!(kinds("true"), [TokenKind::Lit(LitKind::Bool)]);
    assert_eq!(kinds("false"), [TokenKind::Lit(LitKind::Bool)]);
    assert_eq!(kinds("="), [TokenKind::Keyword(Keyword::Eq)]);
    assert_eq!(kinds("=>"), [TokenKind::Keyword(Keyword::DArrow)]);
    assert_eq!(kinds("=="), [TokenKind::Ident(IdentKind::Symbolic)]);
    assert_eq!(kinds("+-*"), [TokenKind::Ident(IdentKind::Symbolic)]);
    assert_eq!(kinds("truefalse"), [TokenKind::Ident(IdentKind::Alphanumeric)]);
}

#[test]
fn punctuation_and_invalid() {
    assert_eq!(
        kinds("(;)"),
        [TokenKind::LParen, TokenKind::Semi, TokenKind::RParen]
    );
    assert_eq!(kinds("#"), [TokenKind::Invalid]);
}

#[test]
fn spans_cover_input_with_start_offset() {
    // total coverage: concatenating the spans reproduces the input extent,
    // here with the file based at a non-zero global position
    let input = "val x = \"a\" // done";
    let tokens = tokenize(input, Pos::from_usize(100));
    assert!(!tokens.is_empty());
    assert_eq!(tokens[0].span.start.index, 100);
    for i in 0..tokens.len() - 1 {
        assert_eq!(tokens[i].span.end, tokens[i + 1].span.start);
    }
    assert_eq!(tokens[tokens.len() - 1].span.end.index, 100 + input.len());
    let mut covered = String::new();
    for t in &tokens {
        covered.push_str(&input[t.span.start.index - 100..t.span.end.index - 100]);
    }
    assert_eq!(covered, input);
}

#[test]
fn multibyte_spans_measure_bytes() {
    // one wide 4-byte character and one identifier
    let input = "\u{1F30A}x";
    let tokens = tokenize(input, Pos::from_usize(0));
    assert_eq!(tokens.len(), 2);
    assert_eq!(tokens[0].kind, TokenKind::Invalid);
    assert_eq!(tokens[0].span.end.index, 4);
    assert_eq!(tokens[1].kind, TokenKind::Ident(IdentKind::Alphanumeric));
    assert_eq!(tokens[1].span.end.index, 5);
}

#[test]
fn token_new_carries_kind_and_span() {
    let span = kona::span::Span::dummy();
    let token = Token::new(TokenKind::Semi, span);
    assert_eq!(token.kind, TokenKind::Semi);
    assert_eq!(token.span, span);
    assert!(token.kind.is_punct());
    assert!(!token.kind.is_trivia());
    assert!(TokenKind::Lit(LitKind::Int).is_int_lit());
    assert!(TokenKind::Lit(LitKind::Float).is_float_lit());
    assert!(TokenKind::Lit(LitKind::Bool).is_bool_lit());
    assert!(TokenKind::Lit(LitKind::Str { terminated: true }).is_string_lit());
    assert!(TokenKind::Lit(LitKind::Bool).is_lit());
    assert!(TokenKind::Keyword(Keyword::Let).is_keyword());
    assert!(TokenKind::Ident(IdentKind::Symbolic).is_ident());
    assert!(TokenKind::Trivia(TriviaKind::Whitespace).is_whitespace());
    assert!(TokenKind::Trivia(TriviaKind::Eol).is_eol());
    assert!(TokenKind::Trivia(TriviaKind::SingleLineComment).is_comment());
    assert!(TokenKind::Trivia(TriviaKind::MultiLineComment { terminated: true }).is_comment());
}

#[test]
fn display_names() {
    assert_eq!(TokenKind::Keyword(Keyword::Let).display_name(), "let");
    assert_eq!(TokenKind::Keyword(Keyword::DArrow).display_name(), "double_arrow");
    assert_eq!(TokenKind::Lit(LitKind::Int).display_name(), "int");
    assert_eq!(
        TokenKind::Lit(LitKind::Str { terminated: false }).display_name(),
        "string"
    );
    assert_eq!(TokenKind::Ident(IdentKind::Symbolic).display_name(), "ident");
    assert_eq!(TokenKind::LParen.display_name(), "l_paren");
    assert_eq!(
        TokenKind::Trivia(TriviaKind::MultiLineComment { terminated: true }).display_name(),
        "block_comment"
    );
    assert_eq!(TokenKind::Invalid.display_name(), "invalid");
}
