//! Source-position management and tokenization for the Kona language.
//!
//! The crate provides a global byte-addressable position space spanning many
//! source files ([`pos::Pos`], [`span::Span`], [`source_map::SourceMap`]), a
//! per-file line, column and display-column index
//! ([`source_file::SourceFile`]), a string interner
//! ([`interner::Interner`], [`symbol::Symbol`]), and a total lexer that
//! turns raw text into a stream of spanned tokens, trivia included
//! ([`lexing::tokenize`], [`token_iter::TokenIter`]).
//!
//! The lexer is proved equal to its specification ([`lexing::spec_lex`]):
//! in particular, token spans are contiguous and gap-free
//! ([`lexing::lemma_span_contiguity`]) and cover the input exactly
//! ([`lexing::lemma_total_coverage`]). Interning is proved canonical
//! ([`interner::lemma_intern_idempotent`]), file intervals ascend
//! disjointly in load order ([`source_map::lemma_pos_monotonic`]), and line
//! lookups round-trip with line bounds
//! ([`source_file::lemma_line_lookup_round_trip`]).

pub mod char_spec;
pub mod diagnostic;
pub mod interner;
pub mod lexer;
pub mod lexing;
pub mod lookahead;
pub mod pos;
pub mod source_file;
pub mod source_iter;
pub mod source_map;
pub mod span;
pub mod symbol;
pub mod text;
pub mod token;
pub mod token_iter;
