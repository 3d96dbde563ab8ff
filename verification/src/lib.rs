//! Front end of a small arithmetic expression language: a tokenizer, a
//! recursive-descent parser, the syntax tree they build, and a tree walker.
pub mod ast;
