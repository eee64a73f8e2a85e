//! Expression evaluation against a symbol table and a current address.
//!
//! Arithmetic wraps in 32 bits, so expressions like `$10000 - $100`
//! come out right even though the final use truncates to 16 bits.
//! Evaluation fails only on an undefined symbol or a division by zero.

use vstd::prelude::*;
use crate::error::AsmError;
use crate::expr::{Expr, SpecExpr};
use crate::symbol::SymbolTable;
use crate::text;

verus! {

/// What evaluating an expression yields: a value, the first undefined
/// name met, or a division by zero.
pub enum EvalOutcome {
    Value(u32),
    Undefined(Seq<char>),
    DivZero,
}

/// The value of an expression, evaluated left to right with 32-bit
/// wrapping arithmetic; the first failure wins.
pub open spec fn spec_eval(e: SpecExpr, symbols: Map<Seq<char>, u16>, pc: u16) -> EvalOutcome
    decreases e,
{
    match e {
        SpecExpr::Num(n) => EvalOutcome::Value(n),
        SpecExpr::Lbl(name) => if symbols.contains_key(name) {
            EvalOutcome::Value(symbols[name] as u32)
        } else {
            EvalOutcome::Undefined(name)
        },
        SpecExpr::Cur => EvalOutcome::Value(pc as u32),
        SpecExpr::Imm(inner) => spec_eval(*inner, symbols, pc),
        SpecExpr::Low(inner) => match spec_eval(*inner, symbols, pc) {
            EvalOutcome::Value(v) => EvalOutcome::Value(v & 0xFF),
            o => o,
        },
        SpecExpr::High(inner) => match spec_eval(*inner, symbols, pc) {
            EvalOutcome::Value(v) => EvalOutcome::Value((v >> 8) & 0xFF),
            o => o,
        },
        SpecExpr::Add(l, r) => match spec_eval(*l, symbols, pc) {
            EvalOutcome::Value(a) => match spec_eval(*r, symbols, pc) {
                EvalOutcome::Value(b) => EvalOutcome::Value(
                    vstd::wrapping::u32_specs::wrapping_add(a, b),
                ),
                o => o,
            },
            o => o,
        },
        SpecExpr::Sub(l, r) => match spec_eval(*l, symbols, pc) {
            EvalOutcome::Value(a) => match spec_eval(*r, symbols, pc) {
                EvalOutcome::Value(b) => EvalOutcome::Value(
                    vstd::wrapping::u32_specs::wrapping_sub(a, b),
                ),
                o => o,
            },
            o => o,
        },
        SpecExpr::Mul(l, r) => match spec_eval(*l, symbols, pc) {
            EvalOutcome::Value(a) => match spec_eval(*r, symbols, pc) {
                EvalOutcome::Value(b) => EvalOutcome::Value(
                    vstd::wrapping::u32_specs::wrapping_mul(a, b),
                ),
                o => o,
            },
            o => o,
        },
        SpecExpr::Div(l, r) => match spec_eval(*l, symbols, pc) {
            EvalOutcome::Value(a) => match spec_eval(*r, symbols, pc) {
                EvalOutcome::Value(b) => if b == 0 {
                    EvalOutcome::DivZero
                } else {
                    EvalOutcome::Value(a / b)
                },
                o => o,
            },
            o => o,
        },
    }
}

/// The low sixteen bits of a value: how an evaluated expression is
/// truncated where an address or byte is needed.
pub open spec fn low16(v: u32) -> u16 {
    (v & 0xFFFF) as u16
}

/// Evaluates expressions against a fixed symbol table and current
/// address.
pub struct ExpressionEvaluator<'a> {
    symbols: &'a SymbolTable,
    current_address: u16,
}

impl<'a> ExpressionEvaluator<'a> {
    /// The symbol map evaluation reads.
    pub closed spec fn sym_map(&self) -> Map<Seq<char>, u16> {
        self.symbols@
    }

    /// The address the `*` marker denotes.
    pub closed spec fn addr(&self) -> u16 {
        self.current_address
    }

    pub fn new(symbols: &'a SymbolTable, current_address: u16) -> (r: Self)
        ensures
            r.sym_map() == symbols@,
            r.addr() == current_address,
    {
        ExpressionEvaluator { symbols, current_address }
    }

    /// Evaluate to a 32-bit value.
    pub fn evaluate(&self, expr: &Expr) -> (r: Result<u32, AsmError>)
        ensures
            match spec_eval(expr@, self.sym_map(), self.addr()) {
                EvalOutcome::Value(v) => r == Ok::<u32, AsmError>(v),
                EvalOutcome::Undefined(name) => r is Err && (r->Err_0
                    matches AsmError::UndefinedLabel(n) && n@ == name),
                EvalOutcome::DivZero => r is Err && (r->Err_0 matches AsmError::DivisionByZero),
            },
        decreases *expr,
    {
        match expr {
            Expr::Number(n) => Ok(*n),
            Expr::Label(name) => {
                match self.symbols.get(name.as_str()) {
                    Some(v) => Ok(v as u32),
                    None => Err(AsmError::UndefinedLabel(name.clone())),
                }
            },
            Expr::CurrentAddress => Ok(self.current_address as u32),
            Expr::Immediate(inner) => self.evaluate(inner),
            Expr::LowByte(inner) => {
                match self.evaluate(inner) {
                    Ok(v) => Ok(v & 0xFF),
                    Err(e) => Err(e),
                }
            },
            Expr::HighByte(inner) => {
                match self.evaluate(inner) {
                    Ok(v) => Ok((v >> 8) & 0xFF),
                    Err(e) => Err(e),
                }
            },
            Expr::Add(l, r) => {
                match self.evaluate(l) {
                    Ok(a) => match self.evaluate(r) {
                        Ok(b) => Ok(a.wrapping_add(b)),
                        Err(e) => Err(e),
                    },
                    Err(e) => Err(e),
                }
            },
            Expr::Sub(l, r) => {
                match self.evaluate(l) {
                    Ok(a) => match self.evaluate(r) {
                        Ok(b) => Ok(a.wrapping_sub(b)),
                        Err(e) => Err(e),
                    },
                    Err(e) => Err(e),
                }
            },
            Expr::Mul(l, r) => {
                match self.evaluate(l) {
                    Ok(a) => match self.evaluate(r) {
                        Ok(b) => Ok(a.wrapping_mul(b)),
                        Err(e) => Err(e),
                    },
                    Err(e) => Err(e),
                }
            },
            Expr::Div(l, r) => {
                match self.evaluate(l) {
                    Ok(a) => match self.evaluate(r) {
                        Ok(b) => {
                            if b == 0 {
                                Err(AsmError::DivisionByZero)
                            } else {
                                Ok(a / b)
                            }
                        },
                        Err(e) => Err(e),
                    },
                    Err(e) => Err(e),
                }
            },
        }
    }

    /// Evaluate and truncate to 16 bits, for contexts that need an
    /// address or byte value.
    pub fn evaluate_u16(&self, expr: &Expr) -> (r: Result<u16, AsmError>)
        ensures
            match spec_eval(expr@, self.sym_map(), self.addr()) {
                EvalOutcome::Value(v) => r == Ok::<u16, AsmError>(low16(v)),
                EvalOutcome::Undefined(name) => r is Err && (r->Err_0
                    matches AsmError::UndefinedLabel(n) && n@ == name),
                EvalOutcome::DivZero => r is Err && (r->Err_0 matches AsmError::DivisionByZero),
            },
    {
        match self.evaluate(expr) {
            Ok(v) => Ok((v & 0xFFFF) as u16),
            Err(e) => Err(e),
        }
    }

    /// Evaluate, discarding the error: `None` signals an expression
    /// that cannot be resolved yet (or at all).
    pub fn try_evaluate(&self, expr: &Expr) -> (r: Option<u32>)
        ensures
            match spec_eval(expr@, self.sym_map(), self.addr()) {
                EvalOutcome::Value(v) => r == Some(v),
                EvalOutcome::Undefined(_) => r is None,
                EvalOutcome::DivZero => r is None,
            },
    {
        match self.evaluate(expr) {
            Ok(v) => Some(v),
            Err(_) => None,
        }
    }
}

} // verus!
