//! Tokens produced by the lexer, and the spanned identifier and operator
//! nodes built from them.

use vstd::prelude::*;

use crate::interner::{intern_spec, Interner};
use crate::span::Span;
use crate::symbol::Symbol;

verus! {

/// A reserved word, or one of the two reserved operator lexemes `=` and
/// `=>`.
#[derive(Clone, Copy, Debug, Hash, PartialEq, Eq, Structural)]
pub enum Keyword {
    Else,
    End,
    Fn,
    If,
    In,
    Let,
    Then,
    Val,
    Eq,
    DArrow,
}

/// The kind of a literal token. A string literal carries a flag telling
/// whether its closing quote was found; an unterminated literal is a token,
/// not a lexer failure.
#[derive(Clone, Copy, Debug, Hash, PartialEq, Eq, Structural)]
pub enum LitKind {
    Int,
    Float,
    Bool,
    Str { terminated: bool },
}

/// The spelling family of an identifier.
#[derive(Clone, Copy, Debug, Hash, PartialEq, Eq, Structural)]
pub enum IdentKind {
    /// Letters, digits and underscores, starting with a letter or
    /// underscore.
    Alphanumeric,
    /// A run of operator-constituent characters.
    Symbolic,
}

/// A lexically significant but syntax-irrelevant token. A multi-line
/// comment nests, and carries a flag telling whether its closing delimiter
/// was found.
#[derive(Clone, Copy, Debug, Hash, PartialEq, Eq, Structural)]
pub enum TriviaKind {
    Whitespace,
    Eol,
    SingleLineComment,
    MultiLineComment { terminated: bool },
}

/// The semantic kind of a token.
#[derive(Clone, Copy, Debug, Hash, PartialEq, Eq, Structural)]
pub enum TokenKind {
    LParen,
    RParen,
    Semi,
    Keyword(Keyword),
    Ident(IdentKind),
    Lit(LitKind),
    Trivia(TriviaKind),
    /// A single unrecognized character. The lexer never aborts: it always
    /// makes progress by consuming at least one character.
    Invalid,
}

impl TokenKind {
    /// The kind is a reserved word or reserved operator lexeme.
    pub open spec fn is_keyword_spec(&self) -> bool {
        self is Keyword
    }

    /// Returns true if the kind is a keyword.
    #[verifier::when_used_as_spec(is_keyword_spec)]
    pub fn is_keyword(&self) -> (b: bool)
        ensures
            b == self.is_keyword_spec(),
    {
        matches!(self, TokenKind::Keyword(_))
    }

    /// The kind is an identifier, alphanumeric or symbolic.
    pub open spec fn is_ident_spec(&self) -> bool {
        self is Ident
    }

    /// Returns true if the kind is an identifier.
    #[verifier::when_used_as_spec(is_ident_spec)]
    pub fn is_ident(&self) -> (b: bool)
        ensures
            b == self.is_ident_spec(),
    {
        matches!(self, TokenKind::Ident(_))
    }

    /// The kind is a literal.
    pub open spec fn is_lit_spec(&self) -> bool {
        self is Lit
    }

    /// Returns true if the kind is a literal.
    #[verifier::when_used_as_spec(is_lit_spec)]
    pub fn is_lit(&self) -> (b: bool)
        ensures
            b == self.is_lit_spec(),
    {
        matches!(self, TokenKind::Lit(_))
    }

    /// The kind is a string literal, terminated or not.
    pub open spec fn is_string_lit_spec(&self) -> bool {
        self matches TokenKind::Lit(LitKind::Str { .. })
    }

    /// Returns true if the kind is a string literal.
    #[verifier::when_used_as_spec(is_string_lit_spec)]
    pub fn is_string_lit(&self) -> (b: bool)
        ensures
            b == self.is_string_lit_spec(),
    {
        matches!(self, TokenKind::Lit(LitKind::Str { .. }))
    }

    /// The kind is an integer literal.
    pub open spec fn is_int_lit_spec(&self) -> bool {
        self == TokenKind::Lit(LitKind::Int)
    }

    /// Returns true if the kind is an integer literal.
    #[verifier::when_used_as_spec(is_int_lit_spec)]
    pub fn is_int_lit(&self) -> (b: bool)
        ensures
            b == self.is_int_lit_spec(),
    {
        matches!(self, TokenKind::Lit(LitKind::Int))
    }

    /// The kind is a float literal.
    pub open spec fn is_float_lit_spec(&self) -> bool {
        self == TokenKind::Lit(LitKind::Float)
    }

    /// Returns true if the kind is a float literal.
    #[verifier::when_used_as_spec(is_float_lit_spec)]
    pub fn is_float_lit(&self) -> (b: bool)
        ensures
            b == self.is_float_lit_spec(),
    {
        matches!(self, TokenKind::Lit(LitKind::Float))
    }

    /// The kind is a boolean literal.
    pub open spec fn is_bool_lit_spec(&self) -> bool {
        self == TokenKind::Lit(LitKind::Bool)
    }

    /// Returns true if the kind is a boolean literal.
    #[verifier::when_used_as_spec(is_bool_lit_spec)]
    pub fn is_bool_lit(&self) -> (b: bool)
        ensures
            b == self.is_bool_lit_spec(),
    {
        matches!(self, TokenKind::Lit(LitKind::Bool))
    }

    /// The kind is trivia: whitespace, an end of line, or a comment.
    pub open spec fn is_trivia_spec(&self) -> bool {
        self is Trivia
    }

    /// Returns true if the kind is trivia.
    #[verifier::when_used_as_spec(is_trivia_spec)]
    pub fn is_trivia(&self) -> (b: bool)
        ensures
            b == self.is_trivia_spec(),
    {
        matches!(self, TokenKind::Trivia(_))
    }

    /// The kind is a whitespace run.
    pub open spec fn is_whitespace_spec(&self) -> bool {
        self == TokenKind::Trivia(TriviaKind::Whitespace)
    }

    /// Returns true if the kind is a whitespace run.
    #[verifier::when_used_as_spec(is_whitespace_spec)]
    pub fn is_whitespace(&self) -> (b: bool)
        ensures
            b == self.is_whitespace_spec(),
    {
        matches!(self, TokenKind::Trivia(TriviaKind::Whitespace))
    }

    /// The kind is an end of line.
    pub open spec fn is_eol_spec(&self) -> bool {
        self == TokenKind::Trivia(TriviaKind::Eol)
    }

    /// Returns true if the kind is an end of line.
    #[verifier::when_used_as_spec(is_eol_spec)]
    pub fn is_eol(&self) -> (b: bool)
        ensures
            b == self.is_eol_spec(),
    {
        matches!(self, TokenKind::Trivia(TriviaKind::Eol))
    }

    /// The kind is a comment, single-line or multi-line.
    pub open spec fn is_comment_spec(&self) -> bool {
        self == TokenKind::Trivia(TriviaKind::SingleLineComment) || (self matches TokenKind::Trivia(
            TriviaKind::MultiLineComment { .. },
        ))
    }

    /// Returns true if the kind is a comment.
    #[verifier::when_used_as_spec(is_comment_spec)]
    pub fn is_comment(&self) -> (b: bool)
        ensures
            b == self.is_comment_spec(),
    {
        matches!(
            self,
            TokenKind::Trivia(TriviaKind::SingleLineComment) | TokenKind::Trivia(
                TriviaKind::MultiLineComment { .. },
            )
        )
    }

    /// The kind is fixed single-character punctuation.
    pub open spec fn is_punct_spec(&self) -> bool {
        self == TokenKind::LParen || self == TokenKind::RParen || self == TokenKind::Semi
    }

    /// Returns true if the kind is punctuation.
    #[verifier::when_used_as_spec(is_punct_spec)]
    pub fn is_punct(&self) -> (b: bool)
        ensures
            b == self.is_punct_spec(),
    {
        matches!(self, TokenKind::LParen | TokenKind::RParen | TokenKind::Semi)
    }
}

/// A token: a semantic kind and the span of the input it covers.
#[derive(Clone, Copy, Debug, Hash, PartialEq, Eq, Structural)]
pub struct Token {
    /// The semantic kind of the token.
    pub kind: TokenKind,
    /// The extent of the token in the global position space.
    pub span: Span,
}

impl Token {
    /// Creates a new token from a kind and a span.
    pub fn new(kind: TokenKind, span: Span) -> (t: Token)
        ensures
            t == (Token { kind, span }),
    {
        Token { kind, span }
    }
}

/// A trivia token on its own: the kind and the span it covers.
#[derive(Clone, Copy, Debug, Hash, PartialEq, Eq, Structural)]
pub struct Trivia {
    /// The kind of trivia.
    pub kind: TriviaKind,
    /// The extent of the trivia in the global position space.
    pub span: Span,
}

/// A spanned, interned identifier.
#[derive(Clone, Copy, Debug, Hash, PartialEq, Eq, Structural)]
pub struct Ident {
    /// The interned name.
    pub name: Symbol,
    /// Where the identifier was written.
    pub span: Span,
}

impl Ident {
    /// Creates a new identifier with the given symbol and span.
    pub fn new(name: Symbol, span: Span) -> (r: Ident)
        ensures
            r == (Ident { name, span }),
    {
        Ident { name, span }
    }

    /// Creates a new identifier with a dummy span.
    pub fn with_dummy_span(name: Symbol) -> (r: Ident)
        ensures
            r.name == name,
            r.span.is_dummy_spec(),
    {
        Ident::new(name, Span::dummy())
    }

    /// Creates a new identifier with the given name and span; the name is
    /// interned.
    pub fn from_str(interner: &mut Interner, name: &str, span: Span) -> (r: Ident)
        requires
            old(interner).wf(),
            old(interner).strings().len() < u32::MAX,
        ensures
            final(interner).wf(),
            (final(interner).strings(), r.name.id as int) == intern_spec(
                old(interner).strings(),
                name@,
            ),
            final(interner).strings()[r.name.id as int] == name@,
            r.span == span,
    {
        Ident::new(Symbol::intern(interner, name), span)
    }

    /// Creates a new identifier with the given name and a dummy span; the
    /// name is interned.
    pub fn from_str_with_dummy_span(interner: &mut Interner, name: &str) -> (r: Ident)
        requires
            old(interner).wf(),
            old(interner).strings().len() < u32::MAX,
        ensures
            final(interner).wf(),
            (final(interner).strings(), r.name.id as int) == intern_spec(
                old(interner).strings(),
                name@,
            ),
            final(interner).strings()[r.name.id as int] == name@,
            r.span.is_dummy_spec(),
    {
        Ident::with_dummy_span(Symbol::intern(interner, name))
    }
}

/// A spanned, interned operator lexeme.
#[derive(Clone, Copy, Debug, Hash, PartialEq, Eq, Structural)]
pub struct Operator {
    /// The interned operator spelling.
    pub name: Symbol,
    /// Where the operator was written.
    pub span: Span,
}

impl Operator {
    /// Creates a new operator with the given symbol and span.
    pub fn new(name: Symbol, span: Span) -> (r: Operator)
        ensures
            r == (Operator { name, span }),
    {
        Operator { name, span }
    }

    /// Creates a new operator with a dummy span.
    pub fn with_dummy_span(name: Symbol) -> (r: Operator)
        ensures
            r.name == name,
            r.span.is_dummy_spec(),
    {
        Operator::new(name, Span::dummy())
    }

    /// Creates a new operator with the given spelling and span; the
    /// spelling is interned.
    pub fn from_str(interner: &mut Interner, name: &str, span: Span) -> (r: Operator)
        requires
            old(interner).wf(),
            old(interner).strings().len() < u32::MAX,
        ensures
            final(interner).wf(),
            (final(interner).strings(), r.name.id as int) == intern_spec(
                old(interner).strings(),
                name@,
            ),
            final(interner).strings()[r.name.id as int] == name@,
            r.span == span,
    {
        Operator::new(Symbol::intern(interner, name), span)
    }

    /// Creates a new operator with the given spelling and a dummy span; the
    /// spelling is interned.
    pub fn from_str_with_dummy_span(interner: &mut Interner, name: &str) -> (r: Operator)
        requires
            old(interner).wf(),
            old(interner).strings().len() < u32::MAX,
        ensures
            final(interner).wf(),
            (final(interner).strings(), r.name.id as int) == intern_spec(
                old(interner).strings(),
                name@,
            ),
            final(interner).strings()[r.name.id as int] == name@,
            r.span.is_dummy_spec(),
    {
        Operator::with_dummy_span(Symbol::intern(interner, name))
    }
}

} // verus!

// The display names of the token kinds, as diagnostics print them.
verus! {

impl TokenKind {
    /// The display name of the kind.
    pub open spec fn display_name_spec(&self) -> Seq<char> {
        match self {
            TokenKind::Ident(_) => "ident"@,
            TokenKind::Lit(LitKind::Int) => "int"@,
            TokenKind::Lit(LitKind::Float) => "float"@,
            TokenKind::Lit(LitKind::Str { .. }) => "string"@,
            TokenKind::Lit(LitKind::Bool) => "bool"@,
            TokenKind::Keyword(Keyword::Else) => "else"@,
            TokenKind::Keyword(Keyword::End) => "end"@,
            TokenKind::Keyword(Keyword::Fn) => "fn"@,
            TokenKind::Keyword(Keyword::If) => "if"@,
            TokenKind::Keyword(Keyword::In) => "in"@,
            TokenKind::Keyword(Keyword::Let) => "let"@,
            TokenKind::Keyword(Keyword::Then) => "then"@,
            TokenKind::Keyword(Keyword::Val) => "val"@,
            TokenKind::Keyword(Keyword::Eq) => "equal"@,
            TokenKind::Keyword(Keyword::DArrow) => "double_arrow"@,
            TokenKind::Semi => "semi"@,
            TokenKind::LParen => "l_paren"@,
            TokenKind::RParen => "r_paren"@,
            TokenKind::Trivia(TriviaKind::Whitespace) => "whitespace"@,
            TokenKind::Trivia(TriviaKind::Eol) => "eol"@,
            TokenKind::Trivia(TriviaKind::SingleLineComment) => "line_comment"@,
            TokenKind::Trivia(TriviaKind::MultiLineComment { .. }) => "block_comment"@,
            TokenKind::Invalid => "invalid"@,
        }
    }

    /// Returns the display name of the kind, for diagnostics and listings.
    pub fn display_name(&self) -> (r: &'static str)
        ensures
            r@ == self.display_name_spec(),
    {
        match self {
            TokenKind::Ident(_) => "ident",
            TokenKind::Lit(LitKind::Int) => "int",
            TokenKind::Lit(LitKind::Float) => "float",
            TokenKind::Lit(LitKind::Str { .. }) => "string",
            TokenKind::Lit(LitKind::Bool) => "bool",
            TokenKind::Keyword(Keyword::Else) => "else",
            TokenKind::Keyword(Keyword::End) => "end",
            TokenKind::Keyword(Keyword::Fn) => "fn",
            TokenKind::Keyword(Keyword::If) => "if",
            TokenKind::Keyword(Keyword::In) => "in",
            TokenKind::Keyword(Keyword::Let) => "let",
            TokenKind::Keyword(Keyword::Then) => "then",
            TokenKind::Keyword(Keyword::Val) => "val",
            TokenKind::Keyword(Keyword::Eq) => "equal",
            TokenKind::Keyword(Keyword::DArrow) => "double_arrow",
            TokenKind::Semi => "semi",
            TokenKind::LParen => "l_paren",
            TokenKind::RParen => "r_paren",
            TokenKind::Trivia(TriviaKind::Whitespace) => "whitespace",
            TokenKind::Trivia(TriviaKind::Eol) => "eol",
            TokenKind::Trivia(TriviaKind::SingleLineComment) => "line_comment",
            TokenKind::Trivia(TriviaKind::MultiLineComment { .. }) => "block_comment",
            TokenKind::Invalid => "invalid",
        }
    }
}

} // verus!
