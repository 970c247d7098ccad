//! An interpreter for a small parenthesised scripting language whose code and
//! data are the same flat sequences of tokens.
//!
//! - `token`, `lexer`: tokens and the lexer, a state machine from text to tokens;
//! - `semantics`: what evaluation means, as spec functions over an interpreter
//!   state (two name tables, a lambda counter, the exchange with outside work);
//! - `interp`, `run`: the evaluator, proved to compute exactly that meaning;
//! - `arith`, `lists`, `texts`: the builtins that read only their arguments;
//! - `table`, `text`, `fault`: name tables, string helpers, fatal errors;
//! - `laws`: laws of evaluation over several steps.
pub mod arith;
pub mod fault;
pub mod interp;
pub mod laws;
pub mod lexer;
pub mod lists;
pub mod run;
pub mod semantics;
pub mod table;
pub mod text;
pub mod texts;
pub mod token;
