//! Error values for the assembler.
//!
//! Every failure is reported to the caller as a structured value that
//! carries the context the message needs: the offending line and its
//! text, the symbol looked up, the branch offset that did not fit.
//! Wrapper variants add context as an error travels outward.

use vstd::prelude::*;
use crate::number::NumberFormat;

verus! {

/// A conditional branch that still cannot reach its target after the
/// rewriting passes have been exhausted.
#[derive(Debug)]
pub struct BranchProblem {
    /// Address of the branch instruction.
    pub address: u16,
    /// Branch mnemonic.
    pub mnemonic: String,
    /// Name of the target label.
    pub target: String,
    /// The displacement that did not fit in a signed byte.
    pub offset: i32,
    /// Resolved address of the target label.
    pub target_addr: u16,
}

/// Everything that can go wrong while assembling.
#[derive(Debug)]
pub enum AsmError {
    /// A numeric literal whose digits are not valid for its base, or
    /// whose value does not fit in 32 bits.
    InvalidNumber { format: NumberFormat, text: String },
    /// An operand that parses as neither a number, a label, nor an
    /// arithmetic expression.
    InvalidExpression(String),
    /// A `.string` or `.incbin` directive without matching quotes; the
    /// payload names the directive.
    MissingQuotes(String),
    /// A mnemonic absent from the opcode table.
    UnknownMnemonic(String),
    /// An immediate operand whose value exceeds one byte.
    ImmediateTooLarge(u16),
    /// An addressing mode the mnemonic does not support.
    UnsupportedMode(String),
    /// A parenthesized operand that is neither `(addr),Y` nor `(addr,X)`.
    InvalidIndirect,
    /// A symbol that is not in the table.
    UndefinedLabel(String),
    /// Division by zero while evaluating an expression.
    DivisionByZero,
    /// A branch displacement outside `-128..=127` in the final pass.
    BranchOutOfRange { offset: i32, target: u16, current: u16 },
    /// An included binary whose bytes were never supplied.
    IncludeNotFound(String),
    /// The branch rewriting passes ran out without reaching a fixed
    /// point; lists the branches that still cannot reach their targets.
    NoConvergence { iterations: u32, problems: Vec<BranchProblem> },
    /// Failure while evaluating a constant definition.
    ConstantError { name: String, cause: Box<AsmError> },
    /// Failure while evaluating an origin directive.
    OrgError(Box<AsmError>),
    /// Failure while evaluating a data directive, with the address at
    /// which it was being emitted.
    DirectiveError { directive: String, address: u16, cause: Box<AsmError> },
    /// Failure while assembling one instruction, with its address.
    InstructionError {
        address: u16,
        mnemonic: String,
        operand: Option<String>,
        cause: Box<AsmError>,
    },
    /// Failure on one source line, with its number and text.
    LineError { line: usize, text: String, cause: Box<AsmError> },
}

} // verus!
