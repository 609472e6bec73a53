//! The evaluation-and-print core of an interactive expression evaluator.
//!
//! A submission goes through the stages one after the other:
//!
//! - [`lexer`] and [`parser`] turn its text into a syntax tree ([`syntax`]);
//! - [`infer`] gives the tree a type, by unification ([`solve`]);
//! - [`eval`] evaluates the tree to a value ([`values`], [`builtins`],
//!   [`num`]);
//! - [`plan`] gives the type a representation, with a layout for each of its
//!   tag unions ([`layout`]); [`reconstruct`] lays the value out in memory
//!   and rebuilds the printable value from the cells ([`memory`]);
//! - [`value`] and [`types`] print the value and the type;
//! - [`report`] tells what went wrong where a stage fails ([`diagnostic`]).
//!
//! [`session`] runs the stages and keeps the definitions of a session;
//! [`answers`] states what follows from stage to stage for submissions of
//! known forms.
//! [`transcript`] reads the answers of an evaluator that runs as a process
//! of its own, and [`locate`] finds its binary.
//!
//! # Numbers
//!
//! A number with a decimal point is held as a decimal fraction of eighteen
//! places ([`text::PLACES`]), not as a binary floating-point number. It is
//! read and printed in decimal, and sums of such numbers are exact: `0.1 +
//! 0.2` is `0.3`, which binary floating point would not give. The places
//! of a literal beyond the eighteenth are dropped. The types of such
//! numbers keep their names (`Float`, `F64`).
//!
//! # Limits
//!
//! Every walk over a tree has a bound on its depth ([`parser::MAX_DEPTH`],
//! [`solve::FUEL`], [`eval::EVAL_FUEL`], [`show::SHOW_FUEL`]), and a
//! submission a bound on its length ([`parser::MAX_TOKENS`]); what goes
//! beyond one of them is answered with a report.

pub mod answers;
pub mod builtins;
pub mod diagnostic;
pub mod eval;
pub mod infer;
pub mod layout;
pub mod lexer;
pub mod locate;
pub mod memory;
pub mod num;
pub mod parser;
pub mod plan;
pub mod reconstruct;
pub mod report;
pub mod session;
pub mod show;
pub mod solve;
pub mod syntax;
pub mod text;
pub mod transcript;
pub mod types;
pub mod value;
pub mod values;
