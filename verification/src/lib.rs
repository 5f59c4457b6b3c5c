//! A small interpreter for a parenthesized prefix language.
//!
//! Text is split into tokens, tokens are parsed into an expression tree, and
//! the tree is evaluated against a caller-owned environment of global
//! bindings. Every stage is specified by a mathematical model, every
//! failure is reported as a value of [`failure::Failure`], and the laws of
//! the language are proved from the model.

pub mod failure;
pub mod text;
pub mod value;
pub mod tokenizer;
pub mod context;
pub mod expression;
pub mod grammar;
pub mod ops;
pub mod semantics;
pub mod session;
pub mod laws;
pub mod fuel;
pub mod counting;
