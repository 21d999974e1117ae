//! Reading and deciding the programs of a small block language; see each module.
use vstd::prelude::*;

pub mod text;
pub mod scan;
pub mod psycho_parser;
pub mod runtime_error;
pub mod numeral;
pub mod var_handler;
pub mod execution_policy;
pub mod blocks;
pub mod alu;
pub mod logic;
pub mod error_text;
pub mod output_state;
pub mod value_parser;
pub mod library;
pub mod line_parser;
pub mod variable;
pub mod dot_notation;
pub mod parse_blocks;
pub mod conditional_parser;
pub mod define_lines;
pub mod command_line;
pub mod symbol_resolver;
pub mod i_core;
pub mod evaluation;

verus! {

} // verus!
