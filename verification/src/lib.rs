//! A compiler core for a small scripting language that targets a byte-code
//! virtual machine: environment tables, the per-function frame allocator and
//! the lowering of expressions and statements to assembler text.

pub mod compiler;
pub mod diag;
pub mod envs;
pub mod expr;
pub mod ident;
pub mod lower;
pub mod messages;
pub mod output;
pub mod parse_error;
pub mod parsing;
pub mod stdenv;
pub mod text;
pub mod types;
pub mod vars;
