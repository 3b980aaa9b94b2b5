//! A tree-walking interpreter for a dense scripting language whose statements
//! are short fixed-shape instructions over single-letter variables.
//!
//! - `num`: exact decimal numbers, the numeric values of the language.
//! - `text`: helpers between strings and character sequences.
//! - `storage`: the variable store and its values.
//! - `lexer`: the grammar, and a lexer that hands out instructions.
//! - `argmap`: parameter substitution for stored programs.
//! - `program`: the semantics of instructions and the evaluator.
//! - `laws`: properties of the store, the evaluator and substitution.
pub mod num;
pub mod text;
pub mod storage;
pub mod lexer;
pub mod argmap;
pub mod program;
pub mod laws;
