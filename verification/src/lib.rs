//! A toolkit for hand-written lexers and recursive-descent parsers.
//!
//! The crate supplies the two cursor engines (one over code points, one over
//! positioned tokens), the span and node-identity model that ties every token
//! and syntax node back to the source text, and the backtracking and
//! repetition combinators that grammar code is composed from.  Token sets,
//! grammars and error values are supplied by the user through the
//! [`lex::Lex`] and [`parse::Parse`] traits.
//!
//! The contracts are stated over mathematical models of the data: a
//! [`span::Extent`] for a span, a [`lex::LexState`] for a scan and a
//! [`parse::ParseState`] for a parse.  What a user-supplied tokenizer, rule
//! or comparison returns is not known to the library; the contracts say what
//! the library makes of whatever it returned.
pub mod span;
pub mod chars;
pub mod node_id;
pub mod ast;
pub mod lex;
pub mod parse;
pub mod repeat;
