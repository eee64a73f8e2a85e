//! A small two-pass assembler for the 6502 family.
//!
//! Source text is parsed into a list of items (instructions, labels,
//! constants, data directives), conditional branches whose targets lie
//! outside the signed 8-bit displacement range are rewritten into a short
//! branch over an absolute jump, and two final passes resolve addresses
//! and emit machine code.

pub mod addressing;
pub mod assembler;
pub mod error;
pub mod eval;
pub mod expr;
pub mod lexer;
pub mod number;
pub mod opcodes;
pub mod symbol;
pub mod text;

pub use addressing::{parse_addr_override, is_branch, AddrOverride};
pub use assembler::Assembler6502;
pub use error::AsmError;
pub use eval::ExpressionEvaluator;
pub use expr::{Expr, ExpressionParser};
pub use lexer::{Either, Item};
pub use number::{NumberFormat, NumberParser};
pub use opcodes::{AddrMode, OpcodeTables};
pub use symbol::SymbolTable;
