//! A lexer library: actions that match the start of a text, a stateless
//! lexer that runs them in order (with head-char and expectation filters),
//! and a stateful lexer that tracks the progress through one text.
pub mod kind;
pub mod lexer;
pub mod text;
