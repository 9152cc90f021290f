//! A two-pass assembler for the Hack machine language.
//!
//! Source text is split into lines, each line is stripped of its `//` comment
//! and trimmed, and the surviving instruction texts are classified as address
//! instructions (`@value`), compute instructions (`dest=comp;jump`) or label
//! pseudo-instructions (`(Name)`).  A first pass binds every label to the
//! program-counter value of the instruction that follows it; a second pass
//! encodes every address and compute instruction into a 16-character binary
//! string, allocating RAM slots from 16 upward for symbolic variables.

pub mod assembler;
pub mod code;
pub mod parser;
pub mod symbol_table;
pub mod text;
