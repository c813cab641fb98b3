//! A compiler and interpreter for a small indentation-structured scripting
//! language that describes finite state machines over three named data
//! stores: read-only `inputs`, per-cycle `outputs`, and persistent `globals`.
//!
//! A host program compiles source text with [`compile`], then drives the
//! resulting [`StateMachine`] one transition cycle at a time: structured
//! input values go in, structured output values come out (or nothing, once
//! the machine has ended).
//!
//! Numbers in this language are fixed-point decimals with six fractional
//! digits, held in an `i64`; equality between numbers tolerates a difference
//! of less than one hundredth of a thousandth, so that repeated arithmetic
//! does not disturb comparisons.

pub mod compiler;
pub mod error;

pub use crate::compiler::compile;
pub use crate::error::{SML_Error, SML_Result};
pub use crate::state_machine::StateMachine;
pub mod expression;
pub mod identifier;
pub mod json;
pub mod laws;
pub mod lexer;
pub mod operation;
pub mod parse_expression;
pub mod state;
pub mod state_machine;
pub mod util;
pub mod value;
