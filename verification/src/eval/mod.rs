//! The comptime evaluator's self-contained pieces.
pub mod env;
pub mod text;
pub mod diag;
pub mod operands;
pub mod builtins;
pub mod const_arity;
pub mod expr;
pub mod typed;
pub mod sandbox;
pub mod expansion;
pub mod compress;
pub mod args;
pub mod addressing;
pub mod inline_data;
pub mod bitfield;
pub mod strings;
pub mod matching;
pub mod enums;
pub mod guard;
pub mod evaluator;
pub mod lowering;
pub mod emit;
pub mod literals;
pub mod dispatch;
pub mod defines;
pub mod pattern;
pub mod interp;
