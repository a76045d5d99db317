//! A lexical scanner for the Lox scripting language.
//!
//! [`scanner::Scanner`] turns source text into a sequence of [`tokens::Token`]s or, where the
//! text holds lexical errors, into the list of all of them. What the scanner returns is defined
//! by the mathematical model in [`grammar`], and every function is proved against it.

pub mod errors;
pub mod grammar;
pub mod laws;
pub mod scanner;
pub mod text;
pub mod tokens;
