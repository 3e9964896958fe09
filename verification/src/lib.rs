//! A small, typed, SQL-like query language for record collections: a lexer and
//! parser for the language, a translator from syntax trees to builder
//! operations, and a query builder that renders the final query string.

pub mod ast;
pub mod assemble;
pub mod cutting;
pub mod grammar;
pub mod laws;
pub mod normalize;
pub mod parser;
pub mod query;
pub mod sql;
pub mod text;
pub mod token;
pub mod translate;
pub mod value;
