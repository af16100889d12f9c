//! A front end for MQL, a small query language for graphs: a scanner that
//! turns query text into tokens, and a parser that turns the tokens of a
//! `select`, `create` or `link` statement into a tree. Beside it, a small
//! in-memory graph store with a depth-first path search.
//!
//! What the scanner and the parser do is stated over sequences of characters
//! and of tokens in [`scan`] and [`grammar`]; [`lexer`] and [`parser`] hold
//! the code that does it. [`tiling`], [`grammar_facts`] and [`search`] hold
//! what is proved of all texts, all tokens and all graphs.

pub mod ast;
pub mod grammar;
pub mod grammar_facts;
pub mod graph;
pub mod lexer;
pub mod mapping;
pub mod parser;
pub mod scan;
pub mod search;
pub mod span;
pub mod text;
pub mod tiling;
pub mod token;
