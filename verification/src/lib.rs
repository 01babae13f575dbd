//! A compiler for a small line-oriented contract language: documents of
//! `meta`, `formula`, `invariant` and `pipeline` sections are parsed into a
//! syntax tree, checked against fixed rules, and turned into a contract.
//! Every executable function here carries a contract over mathematical
//! models; `laws` states properties of the compiler as a whole.
pub mod ast;
pub mod builder;
pub mod chars;
pub mod error;
pub mod expr;
pub mod lexer;
pub mod number;
pub mod parser;
pub mod validator;
pub mod laws;
