//! Comptime evaluation helpers of the `.emp` front end: the lexical scope
//! chain, the FSTRING / `assert` message encoders, the flag-result control
//! flow checks and the small pure helpers the evaluator leans on.
pub mod ast;
pub mod eval;
pub mod flag_check;
pub mod layout;
pub mod value;
