//! Static checking for a graph-construction language whose programs pair
//! syntax-tree query patterns with blocks of statements.
//!
//! A [`ast::File`] is a sequence of stanzas. [`ast::File::check`] validates
//! every stanza body before execution: variables obey lexical scoping and
//! mutability, every capture that a body mentions is bound by the pattern of
//! its own stanza, and every place that consumes a capture as a list or as an
//! optional value agrees with the multiplicity that the query compiler
//! computed for it.
pub mod ast;
pub mod checkable;
pub mod checker;
pub mod context;
pub mod expressions;
pub mod location;
pub mod program;
pub mod query;
pub mod statements;
pub mod variables;
