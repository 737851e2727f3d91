//! The lexer: actions, the stateless lexer and the stateful lexer.
pub mod action;
pub mod builder;
pub mod core_lexer;
pub mod instant;
pub mod lexer;
pub mod re_lex;
pub mod snapshot;
pub mod state;
pub mod expectation;
pub mod fork;
pub mod options;
pub mod output;
pub mod position;
pub mod stateless;
pub mod token;
