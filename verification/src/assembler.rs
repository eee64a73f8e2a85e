//! The assembler: addressing-mode resolution, branch rewriting, and the
//! two-pass driver.
//!
//! `assemble` parses the source, rewrites conditional branches whose
//! targets are out of reach of a signed 8-bit displacement, computes
//! every label's address, and emits the machine code.

use vstd::prelude::*;
use vstd::string::StrSliceExecFns;
use crate::addressing::{AddrOverride, is_branch, parse_addr_override, spec_addr_override, spec_is_branch};
use crate::error::AsmError;
use crate::eval::{EvalOutcome, ExpressionEvaluator, low16, spec_eval};
use crate::expr::{ExpressionParser, SpecExpr, spec_parse_expr};
use crate::lexer;
use crate::lexer::{Item, SpecItem};
use crate::opcodes::{AddrMode, OpcodeTables, spec_implied_opcode, spec_mode_opcode};
use crate::symbol::SymbolTable;
use crate::text;

verus! {

// ===== Included binaries =====

/// The map a binary-registry entry list denotes.
pub open spec fn bins_map(entries: Seq<(String, Vec<u8>)>) -> Map<Seq<char>, Seq<u8>>
    decreases entries.len(),
{
    if entries.len() == 0 {
        Map::<Seq<char>, Seq<u8>>::empty()
    } else {
        bins_map(entries.drop_last()).insert(entries.last().0@, entries.last().1@)
    }
}

proof fn lemma_bins_map_prefix(entries: Seq<(String, Vec<u8>)>, i: int, k: Seq<char>)
    requires
        0 <= i <= entries.len(),
        forall|j: int| i <= j < entries.len() ==> entries[j].0@ != k,
    ensures
        bins_map(entries).contains_key(k) == bins_map(entries.take(i)).contains_key(k),
        bins_map(entries).contains_key(k) ==> bins_map(entries)[k] == bins_map(entries.take(i))[k],
    decreases entries.len() - i,
{
    if i < entries.len() {
        lemma_bins_map_prefix(entries, i + 1, k);
        assert(entries.take(i + 1).drop_last() =~= entries.take(i));
        assert(entries.take(i + 1).last() == entries[i]);
    } else {
        assert(entries.take(i) =~= entries);
    }
}

// ===== Resolution outcomes =====

/// Why resolving one instruction fails.
pub enum SpecResolveErr {
    /// The mnemonic is not in the opcode table.
    Unknown,
    /// The operand parses as no expression.
    BadExpr,
    /// The operand references this undefined symbol.
    UndefinedSym(Seq<char>),
    /// The operand divides by zero.
    DivZero,
    /// An immediate value above one byte.
    TooLarge(u16),
    /// The mnemonic lacks the addressing mode the operand selects.
    Unsupported,
    /// A parenthesized operand that is neither `(a),Y` nor `(a,X)`.
    BadIndirect,
    /// A branch displacement (given with the target address) outside
    /// the signed 8-bit range.
    Range(int, u16),
}

/// What resolving one instruction yields.
pub enum SpecResolve {
    Bytes(Seq<u8>),
    Fail(SpecResolveErr),
}

/// Parse an operand substring and evaluate it, truncated to 16 bits.
pub open spec fn spec_eval_text(txt: Seq<char>, sym: Map<Seq<char>, u16>, pc: u16) -> Result<
    u16,
    SpecResolveErr,
> {
    match spec_parse_expr(txt) {
        None => Err(SpecResolveErr::BadExpr),
        Some(e) => match spec_eval(e, sym, pc) {
            EvalOutcome::Value(v) => Ok(low16(v)),
            EvalOutcome::Undefined(n) => Err(SpecResolveErr::UndefinedSym(n)),
            EvalOutcome::DivZero => Err(SpecResolveErr::DivZero),
        },
    }
}

/// `JMP`: the indirect form `(addr)` emits `$6C`, the plain form `$4C`,
/// each followed by the little-endian target.
pub open spec fn spec_jump(op: Seq<char>, sym: Map<Seq<char>, u16>, pc: u16) -> SpecResolve {
    if op.len() >= 2 && op[0] == '(' && op.last() == ')' {
        match spec_eval_text(op.subrange(1, op.len() - 1), sym, pc) {
            Ok(v) => SpecResolve::Bytes(seq![0x6Cu8, (v & 0xFF) as u8, (v >> 8) as u8]),
            Err(k) => SpecResolve::Fail(k),
        }
    } else {
        match spec_eval_text(op, sym, pc) {
            Ok(v) => SpecResolve::Bytes(seq![0x4Cu8, (v & 0xFF) as u8, (v >> 8) as u8]),
            Err(k) => SpecResolve::Fail(k),
        }
    }
}

/// `JSR`: `$20` followed by the little-endian target.
pub open spec fn spec_subroutine(op: Seq<char>, sym: Map<Seq<char>, u16>, pc: u16) -> SpecResolve {
    match spec_eval_text(op, sym, pc) {
        Ok(v) => SpecResolve::Bytes(seq![0x20u8, (v & 0xFF) as u8, (v >> 8) as u8]),
        Err(k) => SpecResolve::Fail(k),
    }
}

/// A conditional branch: the operand must name a symbol already in the
/// table, and the displacement from the following instruction must fit
/// in a signed byte.
pub open spec fn spec_branch(m: Seq<char>, op: Seq<char>, sym: Map<Seq<char>, u16>, pc: u16) -> SpecResolve {
    if !sym.contains_key(op) {
        SpecResolve::Fail(SpecResolveErr::UndefinedSym(op))
    } else {
        let target = sym[op];
        let off = target as int - (pc as int + 2);
        if off < -128 || off > 127 {
            SpecResolve::Fail(SpecResolveErr::Range(off, target))
        } else {
            match spec_implied_opcode(m) {
                Some(opc) => SpecResolve::Bytes(seq![opc, (off as i8) as u8]),
                None => SpecResolve::Fail(SpecResolveErr::Unknown),
            }
        }
    }
}

/// The zero-page mode an index register selects.
pub open spec fn zp_mode_of(idx: Seq<char>) -> Option<AddrMode> {
    if idx == "X"@ {
        Some(AddrMode::ZeropageX)
    } else if idx == "Y"@ {
        Some(AddrMode::ZeropageY)
    } else {
        None
    }
}

/// The absolute mode an index register selects.
pub open spec fn abs_mode_of(idx: Seq<char>) -> Option<AddrMode> {
    if idx == "X"@ {
        Some(AddrMode::AbsoluteX)
    } else if idx == "Y"@ {
        Some(AddrMode::AbsoluteY)
    } else {
        None
    }
}

/// Look a possibly-absent mode up.
pub open spec fn spec_mode_opcode_opt(m: Seq<char>, mode: Option<AddrMode>) -> Option<u8> {
    match mode {
        Some(md) => spec_mode_opcode(m, md),
        None => None,
    }
}

/// An indirect operand: `(addr),Y` or `(addr,X)`.
pub open spec fn spec_indirect(m: Seq<char>, op: Seq<char>, sym: Map<Seq<char>, u16>, pc: u16) -> SpecResolve {
    if text::spec_contains_sub(op, "),Y"@) {
        let stripped = if op.len() >= 1 && op[0] == '(' {
            op.skip(1)
        } else {
            Seq::<char>::empty()
        };
        let inner = text::spec_trim(
            stripped.take(text::sub_find_from(stripped, "),Y"@, 0)),
        );
        match spec_eval_text(inner, sym, pc) {
            Ok(v) => match spec_mode_opcode(m, AddrMode::IndirectY) {
                Some(code) => SpecResolve::Bytes(seq![code, (v & 0xFF) as u8]),
                None => SpecResolve::Fail(SpecResolveErr::Unsupported),
            },
            Err(k) => SpecResolve::Fail(k),
        }
    } else if op.len() >= 2 && op.last() == ')' {
        let inside = op.subrange(1, op.len() - 1);
        let ci = text::find_from(inside, ',', 0);
        let a = text::spec_trim(inside.take(ci));
        let idx = if ci == inside.len() {
            Seq::<char>::empty()
        } else {
            let seg = inside.skip(ci + 1);
            text::spec_trim(seg.take(text::find_from(seg, ',', 0)))
        };
        if idx == "X"@ || idx == "x"@ {
            match spec_eval_text(a, sym, pc) {
                Ok(v) => match spec_mode_opcode(m, AddrMode::IndirectX) {
                    Some(code) => SpecResolve::Bytes(seq![code, (v & 0xFF) as u8]),
                    None => SpecResolve::Fail(SpecResolveErr::Unsupported),
                },
                Err(k) => SpecResolve::Fail(k),
            }
        } else {
            SpecResolve::Fail(SpecResolveErr::BadIndirect)
        }
    } else {
        SpecResolve::Fail(SpecResolveErr::BadIndirect)
    }
}

/// An indexed operand `addr,X` / `addr,Y`: the zero-page form when the
/// value is below `$100` and not forced absolute (or when forced zero
/// page) and the table has it, else the absolute form.
pub open spec fn spec_indexed(
    m: Seq<char>,
    addr_text: Seq<char>,
    idx: Seq<char>,
    ovr: AddrOverride,
    sym: Map<Seq<char>, u16>,
    pc: u16,
) -> SpecResolve {
    match spec_eval_text(addr_text, sym, pc) {
        Err(k) => SpecResolve::Fail(k),
        Ok(v) => {
            let use_zp = (v < 0x100 && ovr != AddrOverride::ForceAbs) || ovr
                == AddrOverride::ForceZp;
            let zp_code = spec_mode_opcode_opt(m, zp_mode_of(idx));
            if use_zp && zp_code is Some {
                SpecResolve::Bytes(seq![zp_code->Some_0, (v & 0xFF) as u8])
            } else {
                match spec_mode_opcode_opt(m, abs_mode_of(idx)) {
                    Some(code) => SpecResolve::Bytes(
                        seq![code, (v & 0xFF) as u8, (v >> 8) as u8],
                    ),
                    None => SpecResolve::Fail(SpecResolveErr::Unsupported),
                }
            }
        },
    }
}

/// A plain operand: zero page by the same value rule, else absolute.
pub open spec fn spec_abs_or_zp(
    m: Seq<char>,
    op: Seq<char>,
    ovr: AddrOverride,
    sym: Map<Seq<char>, u16>,
    pc: u16,
) -> SpecResolve {
    match spec_eval_text(op, sym, pc) {
        Err(k) => SpecResolve::Fail(k),
        Ok(v) => {
            let use_zp = (v < 0x100 && ovr != AddrOverride::ForceAbs) || ovr
                == AddrOverride::ForceZp;
            let zp_code = spec_mode_opcode(m, AddrMode::Zeropage);
            if use_zp && zp_code is Some {
                SpecResolve::Bytes(seq![zp_code->Some_0, (v & 0xFF) as u8])
            } else {
                match spec_mode_opcode(m, AddrMode::Absolute) {
                    Some(code) => SpecResolve::Bytes(
                        seq![code, (v & 0xFF) as u8, (v >> 8) as u8],
                    ),
                    None => SpecResolve::Fail(SpecResolveErr::Unsupported),
                }
            }
        },
    }
}

/// Resolve one instruction to its bytes at the given address.
pub open spec fn spec_resolve(
    m: Seq<char>,
    operand: Option<Seq<char>>,
    sym: Map<Seq<char>, u16>,
    pc: u16,
) -> SpecResolve {
    match operand {
        None => match spec_implied_opcode(m) {
            Some(op) => SpecResolve::Bytes(seq![op]),
            None => SpecResolve::Fail(SpecResolveErr::Unknown),
        },
        Some(raw) => {
            let stripped = spec_addr_override(raw);
            let op = stripped.0;
            let ovr = stripped.1;
            if m == "JMP"@ {
                spec_jump(op, sym, pc)
            } else if m == "JSR"@ {
                spec_subroutine(op, sym, pc)
            } else if spec_is_branch(m) {
                spec_branch(m, op, sym, pc)
            } else if op.len() >= 1 && op[0] == '#' {
                match spec_eval_text(op.skip(1), sym, pc) {
                    Err(k) => SpecResolve::Fail(k),
                    Ok(v) => if v > 0xFF {
                        SpecResolve::Fail(SpecResolveErr::TooLarge(v))
                    } else {
                        match spec_implied_opcode(m) {
                            Some(code) => SpecResolve::Bytes(seq![code, (v & 0xFF) as u8]),
                            None => SpecResolve::Fail(SpecResolveErr::Unknown),
                        }
                    },
                }
            } else if op.len() >= 1 && op[0] == '(' {
                spec_indirect(m, op, sym, pc)
            } else if text::spec_contains_char(op, ',') {
                let ci = text::find_from(op, ',', 0);
                spec_indexed(
                    m,
                    text::spec_trim(op.take(ci)),
                    text::spec_trim(op.skip(ci + 1)),
                    ovr,
                    sym,
                    pc,
                )
            } else {
                spec_abs_or_zp(m, op, ovr, sym, pc)
            }
        },
    }
}

/// Whether a resolution error matches the error value handed back.
pub open spec fn resolve_err_matches(k: SpecResolveErr, m: Seq<char>, pc: u16, e: AsmError) -> bool {
    match k {
        SpecResolveErr::Unknown => e matches AsmError::UnknownMnemonic(n) && n@ == m,
        SpecResolveErr::BadExpr => e matches AsmError::InvalidExpression(_),
        SpecResolveErr::UndefinedSym(nm) => e matches AsmError::UndefinedLabel(n) && n@ == nm,
        SpecResolveErr::DivZero => e matches AsmError::DivisionByZero,
        SpecResolveErr::TooLarge(v) => e matches AsmError::ImmediateTooLarge(w) && w == v,
        SpecResolveErr::Unsupported => e matches AsmError::UnsupportedMode(n) && n@ == m,
        SpecResolveErr::BadIndirect => e matches AsmError::InvalidIndirect,
        SpecResolveErr::Range(off, tgt) => e matches AsmError::BranchOutOfRange {
            offset,
            target,
            current,
        } && offset as int == off && target == tgt && current == pc,
    }
}

// ===== The assembler =====

/// A two-pass 6502 assembler with automatic long-branch rewriting.
pub struct Assembler6502 {
    opcodes: OpcodeTables,
    symbols: SymbolTable,
    start_address: u16,
    binaries: Vec<(String, Vec<u8>)>,
}

impl Assembler6502 {
    /// The symbol table's current contents.
    pub closed spec fn sym_map(&self) -> Map<Seq<char>, u16> {
        self.symbols@
    }

    /// The registered binary inclusions.
    pub closed spec fn bins(&self) -> Map<Seq<char>, Seq<u8>> {
        bins_map(self.binaries@)
    }

    /// The configured origin.
    pub closed spec fn origin_spec(&self) -> u16 {
        self.start_address
    }

    /// A fresh assembler; the origin starts at `$0080`.
    pub fn new() -> (r: Self)
        ensures
            r.sym_map() == Map::<Seq<char>, u16>::empty(),
            r.bins() == Map::<Seq<char>, Seq<u8>>::empty(),
            r.origin_spec() == 0x0080u16,
    {
        Assembler6502 {
            opcodes: OpcodeTables::new(),
            symbols: SymbolTable::new(),
            start_address: 0x0080,
            binaries: Vec::new(),
        }
    }

    /// Set the origin: the address of the first emitted byte.
    pub fn set_origin(&mut self, addr: u16)
        ensures
            final(self).origin_spec() == addr,
            final(self).sym_map() == old(self).sym_map(),
            final(self).bins() == old(self).bins(),
    {
        self.start_address = addr;
    }

    /// The configured origin.
    pub fn origin(&self) -> (r: u16)
        ensures
            r == self.origin_spec(),
    {
        self.start_address
    }

    /// Register the bytes behind an `.incbin` name; the assembler does
    /// no file reading of its own.
    pub fn add_binary(&mut self, name: String, bytes: Vec<u8>)
        ensures
            final(self).bins() == old(self).bins().insert(name@, bytes@),
            final(self).sym_map() == old(self).sym_map(),
            final(self).origin_spec() == old(self).origin_spec(),
    {
        let ghost before = self.binaries@;
        self.binaries.push((name, bytes));
        proof {
            assert(self.binaries@.drop_last() =~= before);
        }
    }

    /// The registered bytes behind a name.
    fn get_binary(&self, name: &str) -> (r: Option<&Vec<u8>>)
        ensures
            match r {
                Some(b) => self.bins().contains_key(name@) && self.bins()[name@] == b@,
                None => !self.bins().contains_key(name@),
            },
    {
        let n = self.binaries.len();
        let mut i: usize = n;
        while i > 0
            invariant
                n == self.binaries@.len(),
                i <= n,
                forall|j: int| i <= j < n ==> self.binaries@[j].0@ != name@,
            decreases i,
        {
            i -= 1;
            let entry = &self.binaries[i];
            if text::str_eq(entry.0.as_str(), name) {
                proof {
                    lemma_bins_map_prefix(self.binaries@, i + 1, name@);
                    assert(self.binaries@.take(i + 1).drop_last() =~= self.binaries@.take(i as int));
                    assert(self.binaries@.take(i + 1).last() == self.binaries@[i as int]);
                }
                return Some(&entry.1);
            }
        }
        proof {
            lemma_bins_map_prefix(self.binaries@, 0, name@);
            assert(self.binaries@.take(0) =~= Seq::<(String, Vec<u8>)>::empty());
        }
        None
    }

    /// The resolved address of a symbol.
    pub fn lookup(&self, name: &str) -> (r: Option<u16>)
        ensures
            match r {
                Some(v) => self.sym_map().contains_key(name@) && self.sym_map()[name@] == v,
                None => !self.sym_map().contains_key(name@),
            },
    {
        self.symbols.get(name)
    }

    /// The symbol table.
    pub fn symbols(&self) -> (r: &SymbolTable)
        ensures
            r@ == self.sym_map(),
    {
        &self.symbols
    }

    /// Forget all symbols and restore the default origin.
    pub fn reset(&mut self)
        ensures
            final(self).sym_map() == Map::<Seq<char>, u16>::empty(),
            final(self).bins() == Map::<Seq<char>, Seq<u8>>::empty(),
            final(self).origin_spec() == 0x0080u16,
    {
        self.symbols.clear();
        self.binaries = Vec::new();
        self.start_address = 0x0080;
    }

    /// Parse a source text into items without assembling it.
    pub fn parse_source(&self, source: &str) -> (r: Result<Vec<Item>, AsmError>)
        ensures
            match r {
                Ok(items) => lexer::spec_parse_source(source@) == lexer::SpecSource::Items(
                    items@.map_values(|it: Item| lexer::item_view(it)),
                ),
                Err(_) => lexer::spec_parse_source(source@) is Fail,
            },
    {
        lexer::parse_source(source)
    }

    /// Parse an operand substring and evaluate it at `pc`, truncated to
    /// 16 bits.
    fn eval_operand(&self, txt: &str, pc: u16) -> (r: Result<u16, AsmError>)
        ensures
            match spec_eval_text(txt@, self.sym_map(), pc) {
                Ok(v) => r == Ok::<u16, AsmError>(v),
                Err(k) => r is Err && resolve_err_matches(k, Seq::<char>::empty(), pc, r->Err_0)
                    && !(k is Unknown) && !(k is Unsupported) && !(k is TooLarge) && !(k
                    is BadIndirect) && !(k is Range),
            },
    {
        match ExpressionParser::parse(txt) {
            Ok(e) => {
                let ev = ExpressionEvaluator::new(&self.symbols, pc);
                ev.evaluate_u16(&e)
            },
            Err(e) => Err(e),
        }
    }

    /// `JMP`'s two forms.
    fn handle_jump(&self, operand: &str, current_address: u16) -> (r: Result<Vec<u8>, AsmError>)
        ensures
            match spec_jump(operand@, self.sym_map(), current_address) {
                SpecResolve::Bytes(bs) => r is Ok && r->Ok_0@ == bs,
                SpecResolve::Fail(k) => r is Err && resolve_err_matches(
                    k,
                    "JMP"@,
                    current_address,
                    r->Err_0,
                ),
            },
    {
        let len = operand.unicode_len();
        if len >= 2 && operand.get_char(0) == '(' && operand.get_char(len - 1) == ')' {
            let inner = operand.substring_char(1, len - 1);
            assert(inner@ == operand@.subrange(1, operand@.len() - 1));
            return match self.eval_operand(inner, current_address) {
                Ok(v) => {
                    let mut out: Vec<u8> = Vec::new();
                    out.push(0x6C);
                    out.push((v & 0xFF) as u8);
                    out.push((v >> 8) as u8);
                    proof {
                        assert(out@ =~= seq![0x6Cu8, (v & 0xFF) as u8, (v >> 8) as u8]);
                    }
                    Ok(out)
                },
                Err(e) => Err(e),
            };
        }
        match self.eval_operand(operand, current_address) {
            Ok(v) => {
                let mut out: Vec<u8> = Vec::new();
                out.push(0x4C);
                out.push((v & 0xFF) as u8);
                out.push((v >> 8) as u8);
                proof {
                    assert(out@ =~= seq![0x4Cu8, (v & 0xFF) as u8, (v >> 8) as u8]);
                }
                Ok(out)
            },
            Err(e) => Err(e),
        }
    }

    /// `JSR`.
    fn handle_subroutine(&self, operand: &str, current_address: u16) -> (r: Result<
        Vec<u8>,
        AsmError,
    >)
        ensures
            match spec_subroutine(operand@, self.sym_map(), current_address) {
                SpecResolve::Bytes(bs) => r is Ok && r->Ok_0@ == bs,
                SpecResolve::Fail(k) => r is Err && resolve_err_matches(
                    k,
                    "JSR"@,
                    current_address,
                    r->Err_0,
                ),
            },
    {
        match self.eval_operand(operand, current_address) {
            Ok(v) => {
                let mut out: Vec<u8> = Vec::new();
                out.push(0x20);
                out.push((v & 0xFF) as u8);
                out.push((v >> 8) as u8);
                proof {
                    assert(out@ =~= seq![0x20u8, (v & 0xFF) as u8, (v >> 8) as u8]);
                }
                Ok(out)
            },
            Err(e) => Err(e),
        }
    }

    /// A conditional branch.
    fn handle_branch(&self, mnemonic: &str, operand: &str, current_address: u16) -> (r: Result<
        Vec<u8>,
        AsmError,
    >)
        requires
            spec_is_branch(mnemonic@),
        ensures
            match spec_branch(mnemonic@, operand@, self.sym_map(), current_address) {
                SpecResolve::Bytes(bs) => r is Ok && r->Ok_0@ == bs,
                SpecResolve::Fail(k) => r is Err && resolve_err_matches(
                    k,
                    mnemonic@,
                    current_address,
                    r->Err_0,
                ),
            },
    {
        let target = match self.symbols.get(operand) {
            Some(t) => t,
            None => {
                return Err(AsmError::UndefinedLabel(text::own(operand)));
            },
        };
        let offset: i32 = target as i32 - (current_address as i32 + 2);
        if offset < -128 || offset > 127 {
            return Err(
                AsmError::BranchOutOfRange { offset, target, current: current_address },
            );
        }
        match self.opcodes.implied(mnemonic) {
            Some(opcode) => {
                let mut out: Vec<u8> = Vec::new();
                out.push(opcode);
                out.push((offset as i8) as u8);
                proof {
                    assert(out@ =~= seq![opcode, (offset as i8) as u8]);
                }
                Ok(out)
            },
            None => Err(AsmError::UnknownMnemonic(text::own(mnemonic))),
        }
    }

    /// The two indirect operand forms.
    fn handle_indirect(&self, mnemonic: &str, operand: &str, current_address: u16) -> (r: Result<
        Vec<u8>,
        AsmError,
    >)
        requires
            operand@.len() >= 1,
            operand@[0] == '(',
        ensures
            match spec_indirect(mnemonic@, operand@, self.sym_map(), current_address) {
                SpecResolve::Bytes(bs) => r is Ok && r->Ok_0@ == bs,
                SpecResolve::Fail(k) => r is Err && resolve_err_matches(
                    k,
                    mnemonic@,
                    current_address,
                    r->Err_0,
                ),
            },
    {
        let len = operand.unicode_len();
        if text::contains_sub(operand, "),Y") {
            let stripped = operand.substring_char(1, len);
            assert(stripped@ == operand@.skip(1));
            let cut = text::find_sub(stripped, "),Y");
            let inner = text::trim(stripped.substring_char(0, cut));
            proof {
                assert(inner@ == text::spec_trim(
                    operand@.skip(1).take(text::sub_find_from(operand@.skip(1), "),Y"@, 0)),
                ));
            }
            return match self.eval_operand(inner, current_address) {
                Ok(v) => {
                    match self.opcodes.mode(mnemonic, AddrMode::IndirectY) {
                        Some(code) => {
                            let mut out: Vec<u8> = Vec::new();
                            out.push(code);
                            out.push((v & 0xFF) as u8);
                            proof {
                                assert(out@ =~= seq![code, (v & 0xFF) as u8]);
                            }
                            Ok(out)
                        },
                        None => Err(AsmError::UnsupportedMode(text::own(mnemonic))),
                    }
                },
                Err(e) => Err(e),
            };
        }
        if len >= 2 && operand.get_char(len - 1) == ')' {
            let inside = operand.substring_char(1, len - 1);
            assert(inside@ == operand@.subrange(1, operand@.len() - 1));
            let ilen = inside.unicode_len();
            let ci = text::find_char(inside, ',');
            let a = text::trim(inside.substring_char(0, ci));
            proof {
                assert(a@ == text::spec_trim(inside@.take(text::find_from(inside@, ',', 0))));
            }
            let idx = if ci == ilen {
                let empty_idx = inside.substring_char(0, 0);
                assert(empty_idx@ =~= Seq::<char>::empty());
                empty_idx
            } else {
                let seg = inside.substring_char(ci + 1, ilen);
                assert(seg@ == inside@.skip(text::find_from(inside@, ',', 0) + 1));
                let ci2 = text::find_char(seg, ',');
                let part = text::trim(seg.substring_char(0, ci2));
                proof {
                    assert(part@ == text::spec_trim(seg@.take(text::find_from(seg@, ',', 0))));
                }
                part
            };
            let idx_is_x = text::str_eq(idx, "X") || text::str_eq(idx, "x");
            if idx_is_x {
                return match self.eval_operand(a, current_address) {
                    Ok(v) => {
                        match self.opcodes.mode(mnemonic, AddrMode::IndirectX) {
                            Some(code) => {
                                let mut out: Vec<u8> = Vec::new();
                                out.push(code);
                                out.push((v & 0xFF) as u8);
                                proof {
                                    assert(out@ =~= seq![code, (v & 0xFF) as u8]);
                                }
                                Ok(out)
                            },
                            None => Err(AsmError::UnsupportedMode(text::own(mnemonic))),
                        }
                    },
                    Err(e) => Err(e),
                };
            }
            return Err(AsmError::InvalidIndirect);
        }
        Err(AsmError::InvalidIndirect)
    }

    /// An indexed operand outside parentheses.
    fn handle_indexed(
        &self,
        mnemonic: &str,
        addr_part: &str,
        idx: &str,
        mode_override: AddrOverride,
        current_address: u16,
    ) -> (r: Result<Vec<u8>, AsmError>)
        ensures
            match spec_indexed(
                mnemonic@,
                addr_part@,
                idx@,
                mode_override,
                self.sym_map(),
                current_address,
            ) {
                SpecResolve::Bytes(bs) => r is Ok && r->Ok_0@ == bs,
                SpecResolve::Fail(k) => r is Err && resolve_err_matches(
                    k,
                    mnemonic@,
                    current_address,
                    r->Err_0,
                ),
            },
    {
        let v = match self.eval_operand(addr_part, current_address) {
            Ok(v) => v,
            Err(e) => {
                return Err(e);
            },
        };
        let force_zp = matches!(mode_override, AddrOverride::ForceZp);
        let force_abs = matches!(mode_override, AddrOverride::ForceAbs);
        let is_zp = v < 0x100;
        let zp_mode = if text::str_eq(idx, "X") {
            Some(AddrMode::ZeropageX)
        } else if text::str_eq(idx, "Y") {
            Some(AddrMode::ZeropageY)
        } else {
            None
        };
        let abs_mode = if text::str_eq(idx, "X") {
            Some(AddrMode::AbsoluteX)
        } else if text::str_eq(idx, "Y") {
            Some(AddrMode::AbsoluteY)
        } else {
            None
        };
        proof {
            assert(match zp_mode {
                Some(md) => zp_mode_of(idx@) == Some(md),
                None => zp_mode_of(idx@) is None,
            });
            assert(match abs_mode {
                Some(md) => abs_mode_of(idx@) == Some(md),
                None => abs_mode_of(idx@) is None,
            });
        }
        if (is_zp && !force_abs) || force_zp {
            let code_opt = match zp_mode {
                Some(md) => self.opcodes.mode(mnemonic, md),
                None => None,
            };
            if let Some(code) = code_opt {
                let mut out: Vec<u8> = Vec::new();
                out.push(code);
                out.push((v & 0xFF) as u8);
                proof {
                    assert(out@ =~= seq![code, (v & 0xFF) as u8]);
                }
                return Ok(out);
            }
        }
        let code_opt = match abs_mode {
            Some(md) => self.opcodes.mode(mnemonic, md),
            None => None,
        };
        match code_opt {
            Some(code) => {
                let mut out: Vec<u8> = Vec::new();
                out.push(code);
                out.push((v & 0xFF) as u8);
                out.push((v >> 8) as u8);
                proof {
                    assert(out@ =~= seq![code, (v & 0xFF) as u8, (v >> 8) as u8]);
                }
                Ok(out)
            },
            None => Err(AsmError::UnsupportedMode(text::own(mnemonic))),
        }
    }

    /// A plain operand: absolute or zero page.
    fn handle_absolute_or_zp(
        &self,
        mnemonic: &str,
        operand: &str,
        mode_override: AddrOverride,
        current_address: u16,
    ) -> (r: Result<Vec<u8>, AsmError>)
        ensures
            match spec_abs_or_zp(
                mnemonic@,
                operand@,
                mode_override,
                self.sym_map(),
                current_address,
            ) {
                SpecResolve::Bytes(bs) => r is Ok && r->Ok_0@ == bs,
                SpecResolve::Fail(k) => r is Err && resolve_err_matches(
                    k,
                    mnemonic@,
                    current_address,
                    r->Err_0,
                ),
            },
    {
        let v = match self.eval_operand(operand, current_address) {
            Ok(v) => v,
            Err(e) => {
                return Err(e);
            },
        };
        let force_zp = matches!(mode_override, AddrOverride::ForceZp);
        let force_abs = matches!(mode_override, AddrOverride::ForceAbs);
        if (v < 0x100 && !force_abs) || force_zp {
            if let Some(code) = self.opcodes.mode(mnemonic, AddrMode::Zeropage) {
                let mut out: Vec<u8> = Vec::new();
                out.push(code);
                out.push((v & 0xFF) as u8);
                proof {
                    assert(out@ =~= seq![code, (v & 0xFF) as u8]);
                }
                return Ok(out);
            }
        }
        match self.opcodes.mode(mnemonic, AddrMode::Absolute) {
            Some(code) => {
                let mut out: Vec<u8> = Vec::new();
                out.push(code);
                out.push((v & 0xFF) as u8);
                out.push((v >> 8) as u8);
                proof {
                    assert(out@ =~= seq![code, (v & 0xFF) as u8, (v >> 8) as u8]);
                }
                Ok(out)
            },
            None => Err(AsmError::UnsupportedMode(text::own(mnemonic))),
        }
    }

    /// Resolve one instruction into machine bytes at `current_address`.
    pub fn assemble_instruction(
        &self,
        mnemonic: &str,
        operand: Option<&str>,
        current_address: u16,
    ) -> (r: Result<Vec<u8>, AsmError>)
        ensures
            match spec_resolve(
                mnemonic@,
                match operand {
                    Some(o) => Some(o@),
                    None => None,
                },
                self.sym_map(),
                current_address,
            ) {
                SpecResolve::Bytes(bs) => r is Ok && r->Ok_0@ == bs,
                SpecResolve::Fail(k) => r is Err && resolve_err_matches(
                    k,
                    mnemonic@,
                    current_address,
                    r->Err_0,
                ),
            },
    {
        let operand_raw = match operand {
            None => {
                return match self.opcodes.implied(mnemonic) {
                    Some(op) => {
                        let mut out: Vec<u8> = Vec::new();
                        out.push(op);
                        proof {
                            assert(out@ =~= seq![op]);
                        }
                        Ok(out)
                    },
                    None => Err(AsmError::UnknownMnemonic(text::own(mnemonic))),
                };
            },
            Some(o) => o,
        };
        let stripped = parse_addr_override(operand_raw);
        let op = stripped.0;
        let mode_override = stripped.1;
        if text::str_eq(mnemonic, "JMP") {
            return self.handle_jump(op, current_address);
        }
        if text::str_eq(mnemonic, "JSR") {
            return self.handle_subroutine(op, current_address);
        }
        if is_branch(mnemonic) {
            return self.handle_branch(mnemonic, op, current_address);
        }
        let oplen = op.unicode_len();
        if oplen >= 1 && op.get_char(0) == '#' {
            let rest = op.substring_char(1, oplen);
            assert(rest@ == spec_addr_override(operand_raw@).0.skip(1));
            let v = match self.eval_operand(rest, current_address) {
                Ok(v) => v,
                Err(e) => {
                    return Err(e);
                },
            };
            if v > 0xFF {
                return Err(AsmError::ImmediateTooLarge(v));
            }
            return match self.opcodes.implied(mnemonic) {
                Some(code) => {
                    let mut out: Vec<u8> = Vec::new();
                    out.push(code);
                    out.push((v & 0xFF) as u8);
                    proof {
                        assert(out@ =~= seq![code, (v & 0xFF) as u8]);
                    }
                    Ok(out)
                },
                None => Err(AsmError::UnknownMnemonic(text::own(mnemonic))),
            };
        }
        if oplen >= 1 && op.get_char(0) == '(' {
            return self.handle_indirect(mnemonic, op, current_address);
        }
        if text::contains_char(op, ',') {
            let ci = text::find_char(op, ',');
            let addr_part = text::trim(op.substring_char(0, ci));
            let idx = text::trim(op.substring_char(ci + 1, oplen));
            proof {
                let so = spec_addr_override(operand_raw@).0;
                assert(addr_part@ == text::spec_trim(so.take(text::find_from(so, ',', 0))));
                assert(idx@ == text::spec_trim(so.skip(text::find_from(so, ',', 0) + 1)));
            }
            return self.handle_indexed(mnemonic, addr_part, idx, mode_override, current_address);
        }
        self.handle_absolute_or_zp(mnemonic, op, mode_override, current_address)
    }
}

// ===== Sizes and addresses =====

/// The current address after an item of the given byte size: 16-bit
/// wrapping addition of the size's low 16 bits.
pub open spec fn spec_advance(addr: u16, size: int) -> u16 {
    vstd::wrapping::u16_specs::wrapping_add(addr, size as u16)
}

/// The byte size of one item at an address: the resolver's answer for
/// an instruction it can resolve, a fixed heuristic otherwise (one byte
/// for a bare known mnemonic, two for an immediate operand or a branch,
/// three for the rest); directives have their own sizes, and an
/// unregistered binary has none.
pub open spec fn spec_item_size(
    it: SpecItem,
    sym: Map<Seq<char>, u16>,
    pc: u16,
    bins: Map<Seq<char>, Seq<u8>>,
) -> Option<int> {
    match it {
        SpecItem::Instruction { mnemonic: m, operand: op } => Some(
            match spec_resolve(m, op, sym, pc) {
                SpecResolve::Bytes(bs) => bs.len() as int,
                SpecResolve::Fail(_) => {
                    if spec_implied_opcode(m) is Some && op is None {
                        1
                    } else if spec_implied_opcode(m) is Some && op is Some && op->Some_0.len()
                        >= 1 && op->Some_0[0] == '#' {
                        2
                    } else if spec_is_branch(m) {
                        2
                    } else {
                        3
                    }
                },
            },
        ),
        SpecItem::Data(exprs) => Some(exprs.len() as int),
        SpecItem::Words(exprs) => Some(
            vstd::wrapping::usize_specs::wrapping_mul(exprs.len() as usize, 2) as int,
        ),
        SpecItem::Text(t) => Some((vstd::utf8::encode_utf8(t).len() as usize) as int),
        SpecItem::IncBin(name) => if bins.contains_key(name) {
            Some(bins[name].len() as int)
        } else {
            None
        },
        SpecItem::Org(_) => Some(0),
        SpecItem::Label(_) => Some(0),
        SpecItem::Constant(_, _) => Some(0),
    }
}

/// How many conditional branch instructions a list holds.
pub open spec fn spec_count_branches(items: Seq<SpecItem>) -> int
    decreases items.len(),
{
    if items.len() == 0 {
        0
    } else {
        let head: int = match items[0] {
            SpecItem::Instruction { mnemonic: m, .. } => if spec_is_branch(m) {
                1
            } else {
                0
            },
            _ => 0,
        };
        head + spec_count_branches(items.drop_first())
    }
}

/// The branch displacement from `from` to `to`, truncated to 16 bits,
/// and whether the truncated value fits the signed 8-bit range.
pub open spec fn spec_branch_distance(from: u16, to: u16) -> (i16, bool) {
    let off = (to as int - (from as int + 2)) as i16;
    (off, -128 <= off <= 127)
}

impl Assembler6502 {
    /// The byte size of one item at `current_address`.
    pub fn instruction_size(&self, inst: &Item, current_address: u16) -> (r: Result<
        usize,
        AsmError,
    >)
        ensures
            match spec_item_size(inst@, self.sym_map(), current_address, self.bins()) {
                Some(n) => r is Ok && r->Ok_0 as int == n,
                None => r is Err && (inst@ matches SpecItem::IncBin(name) && (r->Err_0
                    matches AsmError::IncludeNotFound(f) && f@ == name)),
            },
    {
        match inst {
            Item::Instruction { mnemonic, operand } => {
                let op_ref: Option<&str> = match operand {
                    Some(o) => Some(o.as_str()),
                    None => None,
                };
                if let Ok(bytes) = self.assemble_instruction(mnemonic.as_str(), op_ref, current_address) {
                    return Ok(bytes.len());
                }
                if self.opcodes.implied(mnemonic.as_str()).is_some() {
                    match operand {
                        None => {
                            return Ok(1);
                        },
                        Some(op) => {
                            let oplen = op.as_str().unicode_len();
                            if oplen >= 1 && op.as_str().get_char(0) == '#' {
                                return Ok(2);
                            }
                        },
                    }
                }
                if is_branch(mnemonic.as_str()) {
                    return Ok(2);
                }
                Ok(3)
            },
            Item::Data(exprs) => Ok(exprs.len()),
            Item::Words(exprs) => Ok(exprs.len().wrapping_mul(2)),
            Item::String(s) => Ok(s.as_str().len()),
            Item::IncBin(filename) => {
                match self.get_binary(filename.as_str()) {
                    Some(bytes) => Ok(bytes.len()),
                    None => Err(AsmError::IncludeNotFound(filename.clone())),
                }
            },
            Item::Org(_) => Ok(0),
            Item::Label(_) => Ok(0),
            Item::Constant(_, _) => Ok(0),
        }
    }

    /// How many conditional branches the list holds.
    pub fn count_branches(&self, items: &Vec<Item>) -> (r: usize)
        ensures
            r as int == spec_count_branches(items@.map_values(|it: Item| lexer::item_view(it))),
    {
        let ghost views = items@.map_values(|it: Item| lexer::item_view(it));
        let n = items.len();
        let mut count: usize = 0;
        let mut i: usize = 0;
        proof {
            assert(views.skip(0) =~= views);
        }
        while i < n
            invariant
                n == items@.len(),
                views == items@.map_values(|it: Item| lexer::item_view(it)),
                i <= n,
                count <= i,
                spec_count_branches(views) == count + spec_count_branches(views.skip(i as int)),
            decreases n - i,
        {
            proof {
                assert(views.skip(i as int)[0] == views[i as int]);
                assert(views.skip(i as int).drop_first() =~= views.skip(i + 1));
            }
            match &items[i] {
                Item::Instruction { mnemonic, .. } => {
                    if is_branch(mnemonic.as_str()) {
                        count += 1;
                    }
                },
                _ => {},
            }
            i += 1;
        }
        proof {
            assert(views.skip(n as int) =~= Seq::<SpecItem>::empty());
        }
        count
    }

    /// The displacement from `from_addr` to `to_addr` and whether a
    /// branch can encode it.
    pub fn calculate_branch_distance(&self, from_addr: u16, to_addr: u16) -> (r: (i16, bool))
        ensures
            r == spec_branch_distance(from_addr, to_addr),
    {
        let offset: i32 = to_addr as i32 - (from_addr as i32 + 2);
        let off16: i16 = #[verifier::truncate] (offset as i16);
        (off16, -128 <= off16 && off16 <= 127)
    }
}

// ===== Branch rewriting =====

/// The symbol table and running address after walking the items from
/// position `i`: labels record the running address, constants their
/// value, the origin directive moves the address, and every other item
/// advances it by its size.
pub open spec fn spec_build_symbols(
    items: Seq<SpecItem>,
    i: int,
    sym: Map<Seq<char>, u16>,
    addr: u16,
    bins: Map<Seq<char>, Seq<u8>>,
) -> (Map<Seq<char>, u16>, u16)
    decreases items.len() - i,
{
    if i < 0 || i >= items.len() {
        (sym, addr)
    } else {
        match items[i] {
            SpecItem::Label(n) => spec_build_symbols(items, i + 1, sym.insert(n, addr), addr, bins),
            SpecItem::Constant(n, e) => match spec_eval(e, sym, addr) {
                EvalOutcome::Value(v) => spec_build_symbols(
                    items,
                    i + 1,
                    sym.insert(n, low16(v)),
                    addr,
                    bins,
                ),
                _ => spec_build_symbols(items, i + 1, sym, addr, bins),
            },
            SpecItem::Org(e) => match spec_eval(e, sym, addr) {
                EvalOutcome::Value(v) => spec_build_symbols(items, i + 1, sym, low16(v), bins),
                _ => spec_build_symbols(items, i + 1, sym, addr, bins),
            },
            _ => match spec_item_size(items[i], sym, addr, bins) {
                Some(sz) => spec_build_symbols(items, i + 1, sym, spec_advance(addr, sz), bins),
                None => spec_build_symbols(items, i + 1, sym, addr, bins),
            },
        }
    }
}

/// The skip label inserted in front of a rewritten branch.
pub open spec fn skip_label_name(counter: int) -> Seq<char> {
    "__skip_"@ + text::dec_chars(counter)
}

/// The rewritten items from position `i` on, with the flag saying
/// whether anything changed: a conditional branch whose known target
/// is out of range becomes a branch over an absolute jump.
pub open spec fn spec_fix_items(
    items: Seq<SpecItem>,
    i: int,
    sym: Map<Seq<char>, u16>,
    addr: u16,
    counter: int,
    bins: Map<Seq<char>, Seq<u8>>,
) -> (Seq<SpecItem>, bool)
    decreases items.len() - i,
{
    if i < 0 || i >= items.len() {
        (Seq::<SpecItem>::empty(), false)
    } else {
        let it = items[i];
        match it {
            SpecItem::Org(e) => {
                let addr2 = match spec_eval(e, sym, addr) {
                    EvalOutcome::Value(v) => low16(v),
                    _ => addr,
                };
                let rest = spec_fix_items(items, i + 1, sym, addr2, counter, bins);
                (seq![it] + rest.0, rest.1)
            },
            SpecItem::Label(_) => {
                let rest = spec_fix_items(items, i + 1, sym, addr, counter, bins);
                (seq![it] + rest.0, rest.1)
            },
            SpecItem::Constant(_, _) => {
                let rest = spec_fix_items(items, i + 1, sym, addr, counter, bins);
                (seq![it] + rest.0, rest.1)
            },
            SpecItem::Instruction { mnemonic: m, operand: op } => {
                if spec_is_branch(m) && op is Some && sym.contains_key(op->Some_0)
                    && !spec_branch_distance(addr, sym[op->Some_0]).1 {
                    let skip = skip_label_name(counter);
                    let addr2 = vstd::wrapping::u16_specs::wrapping_add(
                        vstd::wrapping::u16_specs::wrapping_add(addr, 2),
                        3,
                    );
                    let rest = spec_fix_items(items, i + 1, sym, addr2, counter + 1, bins);
                    (
                        seq![
                            SpecItem::Instruction { mnemonic: m, operand: Some(skip) },
                            SpecItem::Instruction { mnemonic: "JMP"@, operand: op },
                            SpecItem::Label(skip),
                        ] + rest.0,
                        true,
                    )
                } else {
                    let addr2 = match spec_item_size(it, sym, addr, bins) {
                        Some(sz) => spec_advance(addr, sz),
                        None => addr,
                    };
                    let rest = spec_fix_items(items, i + 1, sym, addr2, counter, bins);
                    (seq![it] + rest.0, rest.1)
                }
            },
            _ => {
                let addr2 = match spec_item_size(it, sym, addr, bins) {
                    Some(sz) => spec_advance(addr, sz),
                    None => addr,
                };
                let rest = spec_fix_items(items, i + 1, sym, addr2, counter, bins);
                (seq![it] + rest.0, rest.1)
            },
        }
    }
}

impl Assembler6502 {
    /// Rebuild the symbol table by walking the items from the origin.
    fn build_symbols(&mut self, instructions: &[Item])
        ensures
            final(self).sym_map() == spec_build_symbols(
                instructions@.map_values(|it: Item| lexer::item_view(it)),
                0,
                Map::<Seq<char>, u16>::empty(),
                old(self).origin_spec(),
                old(self).bins(),
            ).0,
            final(self).origin_spec() == old(self).origin_spec(),
            final(self).bins() == old(self).bins(),
    {
        let ghost views = instructions@.map_values(|it: Item| lexer::item_view(it));
        self.symbols.clear();
        let n = instructions.len();
        let mut current_address: u16 = self.start_address;
        let mut i: usize = 0;
        let ghost goal = spec_build_symbols(
            views,
            0,
            Map::<Seq<char>, u16>::empty(),
            self.origin_spec(),
            self.bins(),
        );
        while i < n
            invariant
                n == instructions@.len(),
                views == instructions@.map_values(|it: Item| lexer::item_view(it)),
                i <= n,
                self.origin_spec() == old(self).origin_spec(),
                self.bins() == old(self).bins(),
                goal == spec_build_symbols(
                    views,
                    0,
                    Map::<Seq<char>, u16>::empty(),
                    old(self).origin_spec(),
                    old(self).bins(),
                ),
                goal == spec_build_symbols(
                    views,
                    i as int,
                    self.sym_map(),
                    current_address,
                    self.bins(),
                ),
            decreases n - i,
    {
            let ghost sym0 = self.sym_map();
            let ghost addr0 = current_address;
            let inst = &instructions[i];
            proof {
                assert(views[i as int] == inst@);
            }
            match inst {
                Item::Label(name) => {
                    self.symbols.insert(name.clone(), current_address);
                    proof {
                        assert(spec_build_symbols(views, i as int, sym0, addr0, self.bins())
                            == spec_build_symbols(
                            views,
                            i + 1,
                            self.sym_map(),
                            current_address,
                            self.bins(),
                        ));
                    }
                },
                Item::Constant(name, expr) => {
                    let value = {
                        let ev = ExpressionEvaluator::new(&self.symbols, current_address);
                        ev.evaluate_u16(expr)
                    };
                    if let Ok(v) = value {
                        self.symbols.insert(name.clone(), v);
                    }
                    proof {
                        assert(spec_build_symbols(views, i as int, sym0, addr0, self.bins())
                            == spec_build_symbols(
                            views,
                            i + 1,
                            self.sym_map(),
                            current_address,
                            self.bins(),
                        ));
                    }
                },
                Item::Org(expr) => {
                    let value = {
                        let ev = ExpressionEvaluator::new(&self.symbols, current_address);
                        ev.evaluate_u16(expr)
                    };
                    if let Ok(v) = value {
                        current_address = v;
                    }
                    proof {
                        assert(spec_build_symbols(views, i as int, sym0, addr0, self.bins())
                            == spec_build_symbols(
                            views,
                            i + 1,
                            self.sym_map(),
                            current_address,
                            self.bins(),
                        ));
                    }
                },
                _ => {
                    let size = self.instruction_size(inst, current_address);
                    if let Ok(sz) = size {
                        current_address = current_address.wrapping_add(
                            #[verifier::truncate] (sz as u16),
                        );
                        proof {
                            assert(current_address == spec_advance(addr0, sz as int));
                        }
                    }
                    proof {
                        assert(!(views[i as int] is Label) && !(views[i as int] is Constant) && !(
                        views[i as int] is Org));
                        assert(spec_build_symbols(views, i as int, sym0, addr0, self.bins())
                            == spec_build_symbols(
                            views,
                            i + 1,
                            self.sym_map(),
                            current_address,
                            self.bins(),
                        ));
                    }
                },
            }
            i += 1;
        }
    }

    /// One rewriting pass: build the symbol table, then expand every
    /// conditional branch whose known target is out of range into a
    /// short branch over an absolute jump.  The flag reports whether
    /// any branch was expanded.
    pub fn fix_long_branches(&mut self, instructions: &[Item]) -> (r: (Vec<Item>, bool))
        ensures
            ({
                let views = instructions@.map_values(|it: Item| lexer::item_view(it));
                let built = spec_build_symbols(
                    views,
                    0,
                    Map::<Seq<char>, u16>::empty(),
                    old(self).origin_spec(),
                    old(self).bins(),
                );
                let fixed = spec_fix_items(
                    views,
                    0,
                    built.0,
                    old(self).origin_spec(),
                    0,
                    old(self).bins(),
                );
                &&& final(self).sym_map() == built.0
                &&& r.0@.map_values(|it: Item| lexer::item_view(it)) == fixed.0
                &&& r.1 == fixed.1
            }),
            final(self).origin_spec() == old(self).origin_spec(),
            final(self).bins() == old(self).bins(),
    {
        let ghost views = instructions@.map_values(|it: Item| lexer::item_view(it));
        self.build_symbols(instructions);
        let ghost sym = self.sym_map();
        let n = instructions.len();
        let mut fixed: Vec<Item> = Vec::new();
        let mut current_address: u16 = self.start_address;
        let mut modified = false;
        let mut unique_counter: usize = 0;
        let mut i: usize = 0;
        let ghost goal = spec_fix_items(views, 0, sym, self.origin_spec(), 0, self.bins());
        proof {
            assert(fixed@.map_values(|it: Item| lexer::item_view(it)) =~= Seq::<SpecItem>::empty());
        }
        while i < n
            invariant
                n == instructions@.len(),
                views == instructions@.map_values(|it: Item| lexer::item_view(it)),
                i <= n,
                unique_counter <= i,
                self.origin_spec() == old(self).origin_spec(),
                self.bins() == old(self).bins(),
                self.sym_map() == sym,
                goal == spec_fix_items(views, 0, sym, old(self).origin_spec(), 0, old(self).bins()),
                ({
                    let rest = spec_fix_items(
                        views,
                        i as int,
                        sym,
                        current_address,
                        unique_counter as int,
                        self.bins(),
                    );
                    goal.0 == fixed@.map_values(|it: Item| lexer::item_view(it)) + rest.0 && goal.1
                        == (modified || rest.1)
                }),
            decreases n - i,
        {
            let ghost f = |it: Item| lexer::item_view(it);
            let ghost rest = spec_fix_items(
                views,
                i as int,
                sym,
                current_address,
                unique_counter as int,
                self.bins(),
            );
            let inst = &instructions[i];
            proof {
                assert(views[i as int] == inst@);
            }
            let ghost before = fixed@;
            match inst {
                Item::Org(expr) => {
                    let c = inst.clone();
                    fixed.push(c);
                    let value = {
                        let ev = ExpressionEvaluator::new(&self.symbols, current_address);
                        ev.evaluate_u16(expr)
                    };
                    if let Ok(v) = value {
                        current_address = v;
                    }
                    proof {
                        assert(fixed@ =~= before.push(c));
                        assert(fixed@.map_values(f) =~= before.map_values(f).push(inst@));
                        let rest2 = spec_fix_items(
                            views,
                            i + 1,
                            sym,
                            current_address,
                            unique_counter as int,
                            self.bins(),
                        );
                        assert(before.map_values(f) + (seq![inst@] + rest2.0) =~= fixed@.map_values(
                            f,
                        ) + rest2.0);
                    }
                },
                Item::Label(_) => {
                    let c = inst.clone();
                    fixed.push(c);
                    proof {
                        assert(fixed@ =~= before.push(c));
                        assert(fixed@.map_values(f) =~= before.map_values(f).push(inst@));
                        let rest2 = spec_fix_items(
                            views,
                            i + 1,
                            sym,
                            current_address,
                            unique_counter as int,
                            self.bins(),
                        );
                        assert(before.map_values(f) + (seq![inst@] + rest2.0) =~= fixed@.map_values(
                            f,
                        ) + rest2.0);
                    }
                },
                Item::Constant(_, _) => {
                    let c = inst.clone();
                    fixed.push(c);
                    proof {
                        assert(fixed@ =~= before.push(c));
                        assert(fixed@.map_values(f) =~= before.map_values(f).push(inst@));
                        let rest2 = spec_fix_items(
                            views,
                            i + 1,
                            sym,
                            current_address,
                            unique_counter as int,
                            self.bins(),
                        );
                        assert(before.map_values(f) + (seq![inst@] + rest2.0) =~= fixed@.map_values(
                            f,
                        ) + rest2.0);
                    }
                },
                Item::Instruction { mnemonic, operand } => {
                    let mut expanded = false;
                    if is_branch(mnemonic.as_str()) {
                        if let Some(op) = operand {
                            if let Some(target_addr) = self.symbols.get(op.as_str()) {
                                let dist = self.calculate_branch_distance(
                                    current_address,
                                    target_addr,
                                );
                                if !dist.1 {
                                    // branch over an absolute jump
                                    let mut skip_label = String::from_str("__skip_");
                                    let num = text::u64_dec(unique_counter as u64);
                                    skip_label.append(num.as_str());
                                    proof {
                                        assert(skip_label@ == skip_label_name(
                                            unique_counter as int,
                                        ));
                                    }
                                    let c1 = Item::Instruction {
                                        mnemonic: mnemonic.clone(),
                                        operand: Some(skip_label.clone()),
                                    };
                                    let c2 = Item::Instruction {
                                        mnemonic: text::own("JMP"),
                                        operand: Some(op.clone()),
                                    };
                                    let c3 = Item::Label(skip_label);
                                    fixed.push(c1);
                                    current_address = current_address.wrapping_add(2);
                                    fixed.push(c2);
                                    current_address = current_address.wrapping_add(3);
                                    fixed.push(c3);
                                    modified = true;
                                    expanded = true;
                                    proof {
                                        assert(unique_counter < i + 1);
                                        let rest2 = spec_fix_items(
                                            views,
                                            i + 1,
                                            sym,
                                            current_address,
                                            unique_counter + 1,
                                            self.bins(),
                                        );
                                        assert(fixed@ =~= before.push(c1).push(c2).push(c3));
                                        assert(fixed@.map_values(f) =~= before.map_values(f)
                                            + seq![c1@, c2@, c3@]);
                                        assert(before.map_values(f) + (seq![
                                            SpecItem::Instruction {
                                                mnemonic: mnemonic@,
                                                operand: Some(skip_label_name(
                                                    unique_counter as int,
                                                )),
                                            },
                                            SpecItem::Instruction {
                                                mnemonic: "JMP"@,
                                                operand: Some(op@),
                                            },
                                            SpecItem::Label(skip_label_name(
                                                unique_counter as int,
                                            )),
                                        ] + rest2.0) =~= fixed@.map_values(f) + rest2.0);
                                    }
                                    unique_counter += 1;
                                }
                            }
                        }
                    }
                    if !expanded {
                        let c = inst.clone();
                        fixed.push(c);
                        let size = self.instruction_size(inst, current_address);
                        if let Ok(sz) = size {
                            current_address = current_address.wrapping_add(
                                #[verifier::truncate] (sz as u16),
                            );
                        }
                        proof {
                            assert(fixed@ =~= before.push(c));
                            assert(fixed@.map_values(f) =~= before.map_values(f).push(inst@));
                            let rest2 = spec_fix_items(
                                views,
                                i + 1,
                                sym,
                                current_address,
                                unique_counter as int,
                                self.bins(),
                            );
                            assert(before.map_values(f) + (seq![inst@] + rest2.0)
                                =~= fixed@.map_values(f) + rest2.0);
                        }
                    }
                },
                _ => {
                    let c = inst.clone();
                    fixed.push(c);
                    let size = self.instruction_size(inst, current_address);
                    if let Ok(sz) = size {
                        current_address = current_address.wrapping_add(
                            #[verifier::truncate] (sz as u16),
                        );
                    }
                    proof {
                        assert(fixed@ =~= before.push(c));
                        assert(fixed@.map_values(f) =~= before.map_values(f).push(inst@));
                        let rest2 = spec_fix_items(
                            views,
                            i + 1,
                            sym,
                            current_address,
                            unique_counter as int,
                            self.bins(),
                        );
                        assert(before.map_values(f) + (seq![inst@] + rest2.0) =~= fixed@.map_values(
                            f,
                        ) + rest2.0);
                    }
                },
            }
            i += 1;
        }
        proof {
            assert(spec_fix_items(
                views,
                n as int,
                sym,
                current_address,
                unique_counter as int,
                self.bins(),
            ).0 =~= Seq::<SpecItem>::empty());
            assert(fixed@.map_values(|it: Item| lexer::item_view(it)) + Seq::<SpecItem>::empty()
                =~= fixed@.map_values(|it: Item| lexer::item_view(it)));
        }
        (fixed, modified)
    }
}

// ===== The relaxation loop and the two final passes =====

/// What the relaxation loop ends with: a stable item list, or the list
/// and symbol table at the moment the pass budget ran out, with the
/// number of passes taken.
pub enum SpecRelax {
    Converged(Seq<SpecItem>),
    GaveUp { items: Seq<SpecItem>, sym: Map<Seq<char>, u16>, iterations: int },
}

/// Run rewriting passes until nothing changes or the budget is spent.
pub open spec fn spec_relax_loop(
    items: Seq<SpecItem>,
    guard: int,
    iteration: int,
    origin: u16,
    bins: Map<Seq<char>, Seq<u8>>,
) -> SpecRelax
    decreases guard + 1,
{
    let built = spec_build_symbols(items, 0, Map::<Seq<char>, u16>::empty(), origin, bins);
    let fixed = spec_fix_items(items, 0, built.0, origin, 0, bins);
    if !fixed.1 {
        SpecRelax::Converged(fixed.0)
    } else if guard <= 0 {
        SpecRelax::GaveUp { items: fixed.0, sym: built.0, iterations: iteration + 1 }
    } else {
        spec_relax_loop(fixed.0, guard - 1, iteration + 1, origin, bins)
    }
}

/// One branch that cannot reach its target.
pub struct SpecProblem {
    pub address: u16,
    pub mnemonic: Seq<char>,
    pub target: Seq<char>,
    pub offset: int,
    pub target_addr: u16,
}

/// The branches that are still out of range, walking the items from
/// position `i` at the given address.  Labels advance nothing; every
/// other item advances the address by its size when that size is
/// known.
pub open spec fn spec_problems(
    items: Seq<SpecItem>,
    i: int,
    sym: Map<Seq<char>, u16>,
    addr: u16,
    bins: Map<Seq<char>, Seq<u8>>,
) -> Seq<SpecProblem>
    decreases items.len() - i,
{
    if i < 0 || i >= items.len() {
        Seq::<SpecProblem>::empty()
    } else {
        let it = items[i];
        let head = match it {
            SpecItem::Instruction { mnemonic: m, operand: op } => {
                if spec_is_branch(m) && op is Some && sym.contains_key(op->Some_0) {
                    let ta = sym[op->Some_0];
                    let off = ta as int - (addr as int + 2);
                    if off < -128 || off > 127 {
                        seq![
                            SpecProblem {
                                address: addr,
                                mnemonic: m,
                                target: op->Some_0,
                                offset: off,
                                target_addr: ta,
                            },
                        ]
                    } else {
                        Seq::<SpecProblem>::empty()
                    }
                } else {
                    Seq::<SpecProblem>::empty()
                }
            },
            _ => Seq::<SpecProblem>::empty(),
        };
        let addr2 = if it is Label {
            addr
        } else {
            match spec_item_size(it, sym, addr, bins) {
                Some(sz) => spec_advance(addr, sz),
                None => addr,
            }
        };
        head + spec_problems(items, i + 1, sym, addr2, bins)
    }
}

/// How an evaluation failure surfaces as an error value.
pub open spec fn eval_err_matches(o: EvalOutcome, e: AsmError) -> bool {
    match o {
        EvalOutcome::Undefined(n) => e matches AsmError::UndefinedLabel(s) && s@ == n,
        EvalOutcome::DivZero => e matches AsmError::DivisionByZero,
        EvalOutcome::Value(_) => false,
    }
}

/// Why one of the two final passes fails.
pub enum SpecPassErr {
    /// A constant whose expression does not evaluate.
    Constant(Seq<char>, EvalOutcome),
    /// An origin directive whose expression does not evaluate.
    Org(EvalOutcome),
    /// An included binary with no registered bytes, found while sizing.
    MissingSize(Seq<char>),
    /// A data directive element that does not evaluate, at its address.
    Directive(Seq<char>, u16, EvalOutcome),
    /// An included binary with no registered bytes, found while
    /// emitting at the given address.
    MissingBytes(Seq<char>, u16),
    /// An instruction that does not resolve, at its address.
    Instr(u16, Seq<char>, Option<Seq<char>>, SpecResolveErr),
}

/// How a pass failure surfaces as an error value.
pub open spec fn pass_err_matches(pe: SpecPassErr, e: AsmError) -> bool {
    match pe {
        SpecPassErr::Constant(n, out) => e matches AsmError::ConstantError { name, cause }
            && name@ == n && eval_err_matches(out, *cause),
        SpecPassErr::Org(out) => e matches AsmError::OrgError(c) && eval_err_matches(out, *c),
        SpecPassErr::MissingSize(f) => e matches AsmError::IncludeNotFound(g) && g@ == f,
        SpecPassErr::Directive(d, a, out) => e matches AsmError::DirectiveError {
            directive,
            address,
            cause,
        } && directive@ == d && address == a && eval_err_matches(out, *cause),
        SpecPassErr::MissingBytes(f, a) => e matches AsmError::DirectiveError {
            directive,
            address,
            cause,
        } && directive@ == ".incbin"@ && address == a && (*cause matches AsmError::IncludeNotFound(
            g,
        ) && g@ == f),
        SpecPassErr::Instr(a, m, op, k) => e matches AsmError::InstructionError {
            address,
            mnemonic,
            operand,
            cause,
        } && address == a && mnemonic@ == m && (match operand {
            Some(o) => op == Some(o@),
            None => op is None,
        }) && resolve_err_matches(k, m, a, *cause),
    }
}

/// The first pass: record every label and constant at its final
/// address; any failure is fatal.
pub open spec fn spec_pass1(
    items: Seq<SpecItem>,
    i: int,
    sym: Map<Seq<char>, u16>,
    addr: u16,
    bins: Map<Seq<char>, Seq<u8>>,
) -> Result<Map<Seq<char>, u16>, SpecPassErr>
    decreases items.len() - i,
{
    if i < 0 || i >= items.len() {
        Ok(sym)
    } else {
        match items[i] {
            SpecItem::Label(n) => spec_pass1(items, i + 1, sym.insert(n, addr), addr, bins),
            SpecItem::Constant(n, e) => match spec_eval(e, sym, addr) {
                EvalOutcome::Value(v) => spec_pass1(items, i + 1, sym.insert(n, low16(v)), addr, bins),
                out => Err(SpecPassErr::Constant(n, out)),
            },
            SpecItem::Org(e) => match spec_eval(e, sym, addr) {
                EvalOutcome::Value(v) => spec_pass1(items, i + 1, sym, low16(v), bins),
                out => Err(SpecPassErr::Org(out)),
            },
            _ => match spec_item_size(items[i], sym, addr, bins) {
                Some(sz) => spec_pass1(items, i + 1, sym, spec_advance(addr, sz), bins),
                None => Err(SpecPassErr::MissingSize(items[i]->IncBin_0)),
            },
        }
    }
}

/// The bytes of a `.byte` directive: one low byte per expression, all
/// evaluated at the directive's start address; the error address moves
/// with each byte.
pub open spec fn spec_data_bytes(
    es: Seq<SpecExpr>,
    j: int,
    sym: Map<Seq<char>, u16>,
    pc: u16,
    addr: u16,
) -> Result<(Seq<u8>, u16), SpecPassErr>
    decreases es.len() - j,
{
    if j < 0 || j >= es.len() {
        Ok((Seq::<u8>::empty(), addr))
    } else {
        match spec_eval(es[j], sym, pc) {
            EvalOutcome::Value(v) => match spec_data_bytes(
                es,
                j + 1,
                sym,
                pc,
                vstd::wrapping::u16_specs::wrapping_add(addr, 1),
            ) {
                Ok(rest) => Ok((seq![(low16(v) & 0xFF) as u8] + rest.0, rest.1)),
                Err(k) => Err(k),
            },
            out => Err(SpecPassErr::Directive(".byte"@, addr, out)),
        }
    }
}

/// The bytes of a `.word` directive: two little-endian bytes per
/// expression.
pub open spec fn spec_word_bytes(
    es: Seq<SpecExpr>,
    j: int,
    sym: Map<Seq<char>, u16>,
    pc: u16,
    addr: u16,
) -> Result<(Seq<u8>, u16), SpecPassErr>
    decreases es.len() - j,
{
    if j < 0 || j >= es.len() {
        Ok((Seq::<u8>::empty(), addr))
    } else {
        match spec_eval(es[j], sym, pc) {
            EvalOutcome::Value(v) => match spec_word_bytes(
                es,
                j + 1,
                sym,
                pc,
                vstd::wrapping::u16_specs::wrapping_add(addr, 2),
            ) {
                Ok(rest) => Ok(
                    (seq![(low16(v) & 0xFF) as u8, (low16(v) >> 8) as u8] + rest.0, rest.1),
                ),
                Err(k) => Err(k),
            },
            out => Err(SpecPassErr::Directive(".word"@, addr, out)),
        }
    }
}

/// The second pass: emit the bytes of every item at its final address.
pub open spec fn spec_pass2(
    items: Seq<SpecItem>,
    i: int,
    sym: Map<Seq<char>, u16>,
    addr: u16,
    bins: Map<Seq<char>, Seq<u8>>,
) -> Result<Seq<u8>, SpecPassErr>
    decreases items.len() - i,
{
    if i < 0 || i >= items.len() {
        Ok(Seq::<u8>::empty())
    } else {
        match items[i] {
            SpecItem::Label(_) => spec_pass2(items, i + 1, sym, addr, bins),
            SpecItem::Constant(_, _) => spec_pass2(items, i + 1, sym, addr, bins),
            SpecItem::Org(e) => match spec_eval(e, sym, addr) {
                EvalOutcome::Value(v) => spec_pass2(items, i + 1, sym, low16(v), bins),
                out => Err(SpecPassErr::Org(out)),
            },
            SpecItem::Data(es) => match spec_data_bytes(es, 0, sym, addr, addr) {
                Ok(seg) => match spec_pass2(items, i + 1, sym, seg.1, bins) {
                    Ok(rest) => Ok(seg.0 + rest),
                    Err(k) => Err(k),
                },
                Err(k) => Err(k),
            },
            SpecItem::Words(es) => match spec_word_bytes(es, 0, sym, addr, addr) {
                Ok(seg) => match spec_pass2(items, i + 1, sym, seg.1, bins) {
                    Ok(rest) => Ok(seg.0 + rest),
                    Err(k) => Err(k),
                },
                Err(k) => Err(k),
            },
            SpecItem::Text(t) => {
                let bs = vstd::utf8::encode_utf8(t);
                match spec_pass2(items, i + 1, sym, spec_advance(addr, bs.len() as int), bins) {
                    Ok(rest) => Ok(bs + rest),
                    Err(k) => Err(k),
                }
            },
            SpecItem::IncBin(f) => if bins.contains_key(f) {
                let bs = bins[f];
                match spec_pass2(items, i + 1, sym, spec_advance(addr, bs.len() as int), bins) {
                    Ok(rest) => Ok(bs + rest),
                    Err(k) => Err(k),
                }
            } else {
                Err(SpecPassErr::MissingBytes(f, addr))
            },
            SpecItem::Instruction { mnemonic: m, operand: op } => match spec_resolve(
                m,
                op,
                sym,
                addr,
            ) {
                SpecResolve::Bytes(bs) => match spec_pass2(
                    items,
                    i + 1,
                    sym,
                    spec_advance(addr, bs.len() as int),
                    bins,
                ) {
                    Ok(rest) => Ok(bs + rest),
                    Err(k) => Err(k),
                },
                SpecResolve::Fail(k) => Err(SpecPassErr::Instr(addr, m, op, k)),
            },
        }
    }
}

/// What assembling a source text yields.
pub enum SpecAssemble {
    /// The machine code, the final (possibly rewritten) item list, and
    /// the final symbol table.
    Done(Seq<u8>, Seq<SpecItem>, Map<Seq<char>, u16>),
    /// A syntax error on the given one-based line.
    ParseErr(int, lexer::SpecLineErr),
    /// The rewriting budget ran out; the state the diagnostic is built
    /// from, and the passes taken.
    NoConverge(Seq<SpecItem>, Map<Seq<char>, u16>, int),
    /// A failure in one of the two final passes.
    PassErr(SpecPassErr),
}


/// How an assembly failure surfaces as an error value.
pub open spec fn assemble_err_matches(
    o: SpecAssemble,
    src: Seq<char>,
    origin: u16,
    bins: Map<Seq<char>, Seq<u8>>,
    e: AsmError,
) -> bool {
    match o {
        SpecAssemble::Done(_, _, _) => false,
        SpecAssemble::ParseErr(n, k) => e matches AsmError::LineError { line, text, cause }
            && line as int == n && text@ == lexer::spec_clean(lexer::spec_lines(src)[n - 1])
            && match k {
            lexer::SpecLineErr::BadExpr => *cause matches AsmError::InvalidExpression(_),
            lexer::SpecLineErr::BadString => (*cause matches AsmError::MissingQuotes(d) && d@
                == ".string"@),
            lexer::SpecLineErr::BadIncBin => (*cause matches AsmError::MissingQuotes(d) && d@
                == ".incbin"@),
        },
        SpecAssemble::NoConverge(items, sym, iters) => e matches AsmError::NoConvergence {
            iterations,
            problems,
        } && iterations as int == (if iters > 0xFFFF_FFFF {
            0xFFFF_FFFF
        } else {
            iters
        }) && problems@.map_values(|b: crate::error::BranchProblem| problem_view(b))
            == spec_problems(items, 0, sym, origin, bins),
        SpecAssemble::PassErr(pe) => pass_err_matches(pe, e),
    }
}

/// The view of a reported branch problem.
pub open spec fn problem_view(b: crate::error::BranchProblem) -> SpecProblem {
    SpecProblem {
        address: b.address,
        mnemonic: b.mnemonic@,
        target: b.target@,
        offset: b.offset as int,
        target_addr: b.target_addr,
    }
}

/// The whole pipeline: parse, rewrite to a fixed point, resolve
/// addresses, emit bytes.
pub open spec fn spec_assemble(src: Seq<char>, origin: u16, bins: Map<Seq<char>, Seq<u8>>) -> SpecAssemble {
    match lexer::spec_parse_source(src) {
        lexer::SpecSource::Fail(n, k) => SpecAssemble::ParseErr(n, k),
        lexer::SpecSource::Items(items0) => {
            match spec_relax_loop(items0, spec_count_branches(items0) + 2, 0, origin, bins) {
                SpecRelax::GaveUp { items, sym, iterations } => SpecAssemble::NoConverge(
                    items,
                    sym,
                    iterations,
                ),
                SpecRelax::Converged(items) => match spec_pass1(
                    items,
                    0,
                    Map::<Seq<char>, u16>::empty(),
                    origin,
                    bins,
                ) {
                    Err(e) => SpecAssemble::PassErr(e),
                    Ok(sym) => match spec_pass2(items, 0, sym, origin, bins) {
                        Err(e) => SpecAssemble::PassErr(e),
                        Ok(bytes) => SpecAssemble::Done(bytes, items, sym),
                    },
                },
            }
        },
    }
}


impl Assembler6502 {
    /// List the branches that still cannot reach their targets, for the
    /// convergence diagnostic.
    fn collect_problems(&self, instructions: &Vec<Item>) -> (r: Vec<crate::error::BranchProblem>)
        ensures
            r@.map_values(|b: crate::error::BranchProblem| problem_view(b)) == spec_problems(
                instructions@.map_values(|it: Item| lexer::item_view(it)),
                0,
                self.sym_map(),
                self.origin_spec(),
                self.bins(),
            ),
    {
        let ghost views = instructions@.map_values(|it: Item| lexer::item_view(it));
        let ghost pv = |b: crate::error::BranchProblem| problem_view(b);
        let ghost goal = spec_problems(views, 0, self.sym_map(), self.origin_spec(), self.bins());
        let n = instructions.len();
        let mut probs: Vec<crate::error::BranchProblem> = Vec::new();
        let mut current_address: u16 = self.start_address;
        let mut i: usize = 0;
        proof {
            assert(probs@.map_values(pv) =~= Seq::<SpecProblem>::empty());
            assert(Seq::<SpecProblem>::empty() + goal =~= goal);
        }
        while i < n
            invariant
                n == instructions@.len(),
                views == instructions@.map_values(|it: Item| lexer::item_view(it)),
                pv == (|b: crate::error::BranchProblem| problem_view(b)),
                i <= n,
                goal == spec_problems(views, 0, self.sym_map(), self.origin_spec(), self.bins()),
                goal =~= probs@.map_values(pv) + spec_problems(
                    views,
                    i as int,
                    self.sym_map(),
                    current_address,
                    self.bins(),
                ),
            decreases n - i,
        {
            let ghost addr0 = current_address;
            let ghost before = probs@;
            let ghost tail = spec_problems(
                views,
                i as int,
                self.sym_map(),
                current_address,
                self.bins(),
            );
            let inst = &instructions[i];
            proof {
                assert(views[i as int] == inst@);
            }
            match inst {
                Item::Instruction { mnemonic, operand } => {
                    if is_branch(mnemonic.as_str()) {
                        if let Some(target) = operand {
                            if let Some(target_addr) = self.symbols.get(target.as_str()) {
                                let offset: i32 = target_addr as i32 - (current_address as i32
                                    + 2);
                                if offset < -128 || offset > 127 {
                                    let p = crate::error::BranchProblem {
                                        address: current_address,
                                        mnemonic: mnemonic.clone(),
                                        target: target.clone(),
                                        offset,
                                        target_addr,
                                    };
                                    probs.push(p);
                                    proof {
                                        assert(probs@ =~= before.push(p));
                                        assert(probs@.map_values(pv) =~= before.map_values(
                                            pv,
                                        ).push(problem_view(p)));
                                    }
                                }
                            }
                        }
                    }
                    let size = self.instruction_size(inst, current_address);
                    if let Ok(sz) = size {
                        current_address = current_address.wrapping_add(
                            #[verifier::truncate] (sz as u16),
                        );
                    }
                },
                Item::Label(_) => {},
                _ => {
                    let size = self.instruction_size(inst, current_address);
                    if let Ok(sz) = size {
                        current_address = current_address.wrapping_add(
                            #[verifier::truncate] (sz as u16),
                        );
                    }
                },
            }
            proof {
                let head = spec_problems(views, i as int, self.sym_map(), addr0, self.bins());
                let rest = spec_problems(
                    views,
                    i + 1,
                    self.sym_map(),
                    current_address,
                    self.bins(),
                );
                assert(before.map_values(pv) + head =~= probs@.map_values(pv) + rest);
            }
            i += 1;
        }
        proof {
            assert(spec_problems(views, n as int, self.sym_map(), current_address, self.bins())
                =~= Seq::<SpecProblem>::empty());
            assert(probs@.map_values(pv) + Seq::<SpecProblem>::empty() =~= probs@.map_values(pv));
        }
        probs
    }
}




impl Assembler6502 {
    /// Emit the bytes of a `.byte` directive into `machine`; the
    /// expressions are all evaluated at the directive's start address,
    /// and the returned address follows the emitted bytes.
    fn emit_data(&self, exprs: &Vec<crate::expr::Expr>, pc: u16, start: u16, machine: &mut Vec<u8>) -> (r: Result<u16, AsmError>)
        ensures
            match spec_data_bytes(
                exprs@.map_values(|e2: crate::expr::Expr| crate::expr::expr_view(e2)),
                0,
                self.sym_map(),
                pc,
                start,
            ) {
                Ok(seg) => r is Ok && final(machine)@ == old(machine)@ + seg.0 && r->Ok_0 == seg.1,
                Err(k) => r is Err && pass_err_matches(k, r->Err_0),
            },
    {
        let ghost sym2 = self.sym_map();
        let ghost es = exprs@.map_values(|e2: crate::expr::Expr| crate::expr::expr_view(e2));
        let ghost seg = spec_data_bytes(es, 0, sym2, pc, start);
        let ghost mark = machine@.len() as int;
        let ghost mach0 = machine@;
        let mut current_address = start;
        let nex = exprs.len();
        let mut j: usize = 0;
        proof {
            assert(machine@.skip(mark) =~= Seq::<u8>::empty());
        }
        while j < nex
            invariant
                nex == exprs@.len(),
                es == exprs@.map_values(|e2: crate::expr::Expr| crate::expr::expr_view(e2)),
                j <= nex,
                sym2 == self.sym_map(),
                seg == spec_data_bytes(es, 0, sym2, pc, start),
                0 <= mark <= machine@.len(),
                machine@.take(mark) == mach0,
                match spec_data_bytes(es, j as int, sym2, pc, current_address) {
                    Ok(rest) => seg == Ok::<(Seq<u8>, u16), SpecPassErr>(
                        (machine@.skip(mark) + rest.0, rest.1),
                    ),
                    Err(k) => seg == Err::<(Seq<u8>, u16), SpecPassErr>(k),
                },
            decreases nex - j,
        {
            let value = {
                let ev = ExpressionEvaluator::new(&self.symbols, pc);
                ev.evaluate_u16(&exprs[j])
            };
            proof {
                assert(es[j as int] == crate::expr::expr_view(exprs@[j as int]));
            }
            match value {
                Ok(v) => {
                    let ghost mprev = machine@;
                    machine.push((v & 0xFF) as u8);
                    current_address = current_address.wrapping_add(1);
                    proof {
                        assert(machine@.take(mark) =~= mprev.take(mark));
                        assert(machine@.skip(mark) =~= mprev.skip(mark).push((v & 0xFF) as u8));
                        if spec_data_bytes(es, j + 1, sym2, pc, current_address) is Ok {
                            let rest2 = spec_data_bytes(es, j + 1, sym2, pc, current_address)->Ok_0;
                            assert(mprev.skip(mark) + (seq![(v & 0xFF) as u8] + rest2.0)
                                =~= machine@.skip(mark) + rest2.0);
                        }
                    }
                },
                Err(e) => {
                    return Err(
                        AsmError::DirectiveError {
                            directive: text::own(".byte"),
                            address: current_address,
                            cause: Box::new(e),
                        },
                    );
                },
            }
            j += 1;
        }
        proof {
            assert(spec_data_bytes(es, nex as int, sym2, pc, current_address) == Ok::<
                (Seq<u8>, u16),
                SpecPassErr,
            >((Seq::<u8>::empty(), current_address)));
            assert(machine@.skip(mark) + Seq::<u8>::empty() =~= machine@.skip(mark));
            assert(mach0 + machine@.skip(mark) =~= machine@);
        }
        Ok(current_address)
    }

    /// Emit the bytes of a `.word` directive: two little-endian bytes
    /// per expression.
    fn emit_words(&self, exprs: &Vec<crate::expr::Expr>, pc: u16, start: u16, machine: &mut Vec<u8>) -> (r: Result<u16, AsmError>)
        ensures
            match spec_word_bytes(
                exprs@.map_values(|e2: crate::expr::Expr| crate::expr::expr_view(e2)),
                0,
                self.sym_map(),
                pc,
                start,
            ) {
                Ok(seg) => r is Ok && final(machine)@ == old(machine)@ + seg.0 && r->Ok_0 == seg.1,
                Err(k) => r is Err && pass_err_matches(k, r->Err_0),
            },
    {
        let ghost sym2 = self.sym_map();
        let ghost es = exprs@.map_values(|e2: crate::expr::Expr| crate::expr::expr_view(e2));
        let ghost seg = spec_word_bytes(es, 0, sym2, pc, start);
        let ghost mark = machine@.len() as int;
        let ghost mach0 = machine@;
        let mut current_address = start;
        let nex = exprs.len();
        let mut j: usize = 0;
        proof {
            assert(machine@.skip(mark) =~= Seq::<u8>::empty());
        }
        while j < nex
            invariant
                nex == exprs@.len(),
                es == exprs@.map_values(|e2: crate::expr::Expr| crate::expr::expr_view(e2)),
                j <= nex,
                sym2 == self.sym_map(),
                seg == spec_word_bytes(es, 0, sym2, pc, start),
                0 <= mark <= machine@.len(),
                machine@.take(mark) == mach0,
                match spec_word_bytes(es, j as int, sym2, pc, current_address) {
                    Ok(rest) => seg == Ok::<(Seq<u8>, u16), SpecPassErr>(
                        (machine@.skip(mark) + rest.0, rest.1),
                    ),
                    Err(k) => seg == Err::<(Seq<u8>, u16), SpecPassErr>(k),
                },
            decreases nex - j,
        {
            let value = {
                let ev = ExpressionEvaluator::new(&self.symbols, pc);
                ev.evaluate_u16(&exprs[j])
            };
            proof {
                assert(es[j as int] == crate::expr::expr_view(exprs@[j as int]));
            }
            match value {
                Ok(v) => {
                    let ghost mprev = machine@;
                    machine.push((v & 0xFF) as u8);
                    machine.push((v >> 8) as u8);
                    current_address = current_address.wrapping_add(2);
                    proof {
                        assert(machine@.take(mark) =~= mprev.take(mark));
                        assert(machine@.skip(mark) =~= mprev.skip(mark).push((v & 0xFF) as u8).push(
                            (v >> 8) as u8,
                        ));
                        if spec_word_bytes(es, j + 1, sym2, pc, current_address) is Ok {
                            let rest2 = spec_word_bytes(es, j + 1, sym2, pc, current_address)->Ok_0;
                            assert(mprev.skip(mark) + (seq![(v & 0xFF) as u8, (v >> 8) as u8]
                                + rest2.0) =~= machine@.skip(mark) + rest2.0);
                        }
                    }
                },
                Err(e) => {
                    return Err(
                        AsmError::DirectiveError {
                            directive: text::own(".word"),
                            address: current_address,
                            cause: Box::new(e),
                        },
                    );
                },
            }
            j += 1;
        }
        proof {
            assert(spec_word_bytes(es, nex as int, sym2, pc, current_address) == Ok::<
                (Seq<u8>, u16),
                SpecPassErr,
            >((Seq::<u8>::empty(), current_address)));
            assert(machine@.skip(mark) + Seq::<u8>::empty() =~= machine@.skip(mark));
            assert(mach0 + machine@.skip(mark) =~= machine@);
        }
        Ok(current_address)
    }
}

impl Assembler6502 {
    /// The first pass: record every label and constant at its final
    /// address, walking from the configured origin.
    fn pass1(&mut self, instructions: &Vec<Item>) -> (r: Result<(), AsmError>)
        ensures
            final(self).origin_spec() == old(self).origin_spec(),
            final(self).bins() == old(self).bins(),
            match spec_pass1(
                instructions@.map_values(|it: Item| lexer::item_view(it)),
                0,
                Map::<Seq<char>, u16>::empty(),
                old(self).origin_spec(),
                old(self).bins(),
            ) {
                Ok(sym) => r is Ok && final(self).sym_map() == sym,
                Err(pe) => r is Err && pass_err_matches(pe, r->Err_0),
            },
    {
        let ghost origin = self.origin_spec();
        let ghost bins = self.bins();
        let ghost views = instructions@.map_values(|it: Item| lexer::item_view(it));
        self.symbols.clear();
        let n = instructions.len();
        let mut current_address: u16 = self.start_address;
        let mut i: usize = 0;
        let ghost goal1 = spec_pass1(views, 0, Map::<Seq<char>, u16>::empty(), origin, bins);
        while i < n
            invariant
                n == instructions@.len(),
                views == instructions@.map_values(|it: Item| lexer::item_view(it)),
                i <= n,
                self.origin_spec() == origin,
                self.bins() == bins,
                origin == old(self).origin_spec(),
                bins == old(self).bins(),
                goal1 == spec_pass1(views, 0, Map::<Seq<char>, u16>::empty(), origin, bins),
                goal1 == spec_pass1(views, i as int, self.sym_map(), current_address, bins),
            decreases n - i,
        {
            let ghost sym0 = self.sym_map();
            let ghost addr0 = current_address;
            let inst = &instructions[i];
            proof {
                assert(views[i as int] == inst@);
            }
            match inst {
                Item::Label(name) => {
                    self.symbols.insert(name.clone(), current_address);
                },
                Item::Constant(name, expr) => {
                    let value = {
                        let ev = ExpressionEvaluator::new(&self.symbols, current_address);
                        ev.evaluate_u16(expr)
                    };
                    match value {
                        Ok(v) => {
                            self.symbols.insert(name.clone(), v);
                        },
                        Err(e) => {
                            return Err(
                                AsmError::ConstantError { name: name.clone(), cause: Box::new(e) },
                            );
                        },
                    }
                },
                Item::Org(expr) => {
                    let value = {
                        let ev = ExpressionEvaluator::new(&self.symbols, current_address);
                        ev.evaluate_u16(expr)
                    };
                    match value {
                        Ok(v) => {
                            current_address = v;
                        },
                        Err(e) => {
                            return Err(AsmError::OrgError(Box::new(e)));
                        },
                    }
                },
                _ => {
                    match self.instruction_size(inst, current_address) {
                        Ok(sz) => {
                            current_address = current_address.wrapping_add(
                                #[verifier::truncate] (sz as u16),
                            );
                        },
                        Err(e) => {
                            return Err(e);
                        },
                    }
                },
            }
            proof {
                assert(spec_pass1(views, i as int, sym0, addr0, bins) == spec_pass1(
                    views,
                    i + 1,
                    self.sym_map(),
                    current_address,
                    bins,
                ));
            }
            i += 1;
        }
        Ok(())
    }

    /// The second pass: emit the bytes of every item at its final
    /// address, using the symbol table the first pass built.
    fn pass2(&self, instructions: &Vec<Item>) -> (r: Result<Vec<u8>, AsmError>)
        ensures
            match spec_pass2(
                instructions@.map_values(|it: Item| lexer::item_view(it)),
                0,
                self.sym_map(),
                self.origin_spec(),
                self.bins(),
            ) {
                Ok(bytes) => r is Ok && r->Ok_0@ == bytes,
                Err(pe) => r is Err && pass_err_matches(pe, r->Err_0),
            },
    {
        let ghost origin = self.origin_spec();
        let ghost bins = self.bins();
        let ghost views = instructions@.map_values(|it: Item| lexer::item_view(it));
        let ghost sym2 = self.sym_map();
        let n = instructions.len();
        let mut i: usize = 0;
        let mut current_address: u16 = self.start_address;
        let ghost goal2 = spec_pass2(views, 0, sym2, origin, bins);
        let mut machine: Vec<u8> = Vec::new();
        while i < n
            invariant
                n == instructions@.len(),
                views == instructions@.map_values(|it: Item| lexer::item_view(it)),
                i <= n,
                origin == self.origin_spec(),
                bins == self.bins(),
                sym2 == self.sym_map(),
                goal2 == spec_pass2(views, 0, sym2, origin, bins),
                match spec_pass2(views, i as int, sym2, current_address, bins) {
                    Ok(rest) => goal2 == Ok::<Seq<u8>, SpecPassErr>(machine@ + rest),
                    Err(k) => goal2 == Err::<Seq<u8>, SpecPassErr>(k),
                },
            decreases n - i,
        {
            let ghost addr0 = current_address;
            let ghost mach0 = machine@;
            let inst = &instructions[i];
            proof {
                assert(views[i as int] == inst@);
            }
            match inst {
                Item::Label(_) => {},
                Item::Constant(_, _) => {},
                Item::Org(expr) => {
                    let value = {
                        let ev = ExpressionEvaluator::new(&self.symbols, current_address);
                        ev.evaluate_u16(expr)
                    };
                    match value {
                        Ok(v) => {
                            current_address = v;
                        },
                        Err(e) => {
                            return Err(AsmError::OrgError(Box::new(e)));
                        },
                    }
                },
                Item::Data(exprs) => {
                    match self.emit_data(exprs, current_address, current_address, &mut machine) {
                        Ok(a) => {
                            current_address = a;
                        },
                        Err(e) => {
                            return Err(e);
                        },
                    }
                },
                Item::Words(exprs) => {
                    match self.emit_words(exprs, current_address, current_address, &mut machine) {
                        Ok(a) => {
                            current_address = a;
                        },
                        Err(e) => {
                            return Err(e);
                        },
                    }
                },
                Item::String(st) => {
                    let bytes = st.as_str().as_bytes();
                    machine.extend_from_slice(bytes);
                    current_address = current_address.wrapping_add(
                        #[verifier::truncate] (bytes.len() as u16),
                    );
                },
                Item::IncBin(filename) => {
                    match self.get_binary(filename.as_str()) {
                        Some(bytes) => {
                            let blen = bytes.len();
                            machine.extend_from_slice(bytes.as_slice());
                            current_address = current_address.wrapping_add(
                                #[verifier::truncate] (blen as u16),
                            );
                        },
                        None => {
                            return Err(
                                AsmError::DirectiveError {
                                    directive: text::own(".incbin"),
                                    address: current_address,
                                    cause: Box::new(
                                        AsmError::IncludeNotFound(filename.clone()),
                                    ),
                                },
                            );
                        },
                    }
                },
                Item::Instruction { mnemonic, operand } => {
                    let op_ref: Option<&str> = match operand {
                        Some(o) => Some(o.as_str()),
                        None => None,
                    };
                    match self.assemble_instruction(mnemonic.as_str(), op_ref, current_address) {
                        Ok(bytes) => {
                            current_address = current_address.wrapping_add(
                                #[verifier::truncate] (bytes.len() as u16),
                            );
                            machine.extend_from_slice(bytes.as_slice());
                        },
                        Err(e) => {
                            return Err(
                                AsmError::InstructionError {
                                    address: current_address,
                                    mnemonic: mnemonic.clone(),
                                    operand: match operand {
                                        Some(o) => Some(o.clone()),
                                        None => None,
                                    },
                                    cause: Box::new(e),
                                },
                            );
                        },
                    }
                },
            }
            proof {
                let head = spec_pass2(views, i as int, sym2, addr0, bins);
                let rest = spec_pass2(views, i + 1, sym2, current_address, bins);
                match rest {
                    Ok(rs) => {
                        if head is Ok {
                            assert(mach0 + head->Ok_0 =~= machine@ + rs);
                        }
                    },
                    Err(_) => {},
                }
            }
            i += 1;
        }
        proof {
            assert(spec_pass2(views, n as int, sym2, current_address, bins) == Ok::<
                Seq<u8>,
                SpecPassErr,
            >(Seq::<u8>::empty()));
            assert(machine@ + Seq::<u8>::empty() =~= machine@);
        }
        Ok(machine)
    }
}

impl Assembler6502 {
    /// Assemble a source text: parse, rewrite long branches to a fixed
    /// point, resolve every address, and emit the machine code.
    fn assemble(&mut self, code: &str) -> (r: Result<(Vec<u8>, Vec<Item>), AsmError>)
        ensures
            final(self).origin_spec() == old(self).origin_spec(),
            final(self).bins() == old(self).bins(),
            match spec_assemble(code@, old(self).origin_spec(), old(self).bins()) {
                SpecAssemble::Done(bytes, items, sym) => r is Ok && r->Ok_0.0@ == bytes
                    && r->Ok_0.1@.map_values(|it: Item| lexer::item_view(it)) == items
                    && final(self).sym_map() == sym,
                o => r is Err && assemble_err_matches(
                    o,
                    code@,
                    old(self).origin_spec(),
                    old(self).bins(),
                    r->Err_0,
                ),
            },
    {
        let ghost origin = self.origin_spec();
        let ghost bins = self.bins();
        let mut instructions = match lexer::parse_source(code) {
            Ok(items) => items,
            Err(e) => {
                return Err(e);
            },
        };
        let ghost items0 = instructions@.map_values(|it: Item| lexer::item_view(it));
        let branch_count = self.count_branches(&instructions);
        let mut guard: u128 = branch_count as u128 + 2;
        let mut iteration: u128 = 0;
        let ghost relax_goal = spec_relax_loop(
            items0,
            spec_count_branches(items0) + 2,
            0,
            origin,
            bins,
        );
        loop
            invariant_except_break
                self.origin_spec() == origin,
                self.bins() == bins,
                origin == old(self).origin_spec(),
                bins == old(self).bins(),
                relax_goal == spec_relax_loop(
                    items0,
                    spec_count_branches(items0) + 2,
                    0,
                    origin,
                    bins,
                ),
                relax_goal == spec_relax_loop(
                    instructions@.map_values(|it: Item| lexer::item_view(it)),
                    guard as int,
                    iteration as int,
                    origin,
                    bins,
                ),
                iteration as int + guard as int == spec_count_branches(items0) + 2,
                spec_count_branches(items0) <= usize::MAX,
                lexer::spec_parse_source(code@) == lexer::SpecSource::Items(items0),
            ensures
                self.origin_spec() == origin,
                self.bins() == bins,
                relax_goal == SpecRelax::Converged(
                    instructions@.map_values(|it: Item| lexer::item_view(it)),
                ),
            decreases guard,
        {
            let ghost pre_views = instructions@.map_values(|it: Item| lexer::item_view(it));
            let result = self.fix_long_branches(instructions.as_slice());
            let modified = result.1;
            instructions = result.0;
            let ghost cur_views = instructions@.map_values(|it: Item| lexer::item_view(it));
            proof {
                let built = spec_build_symbols(
                    pre_views,
                    0,
                    Map::<Seq<char>, u16>::empty(),
                    origin,
                    bins,
                );
                let fixed_spec = spec_fix_items(pre_views, 0, built.0, origin, 0, bins);
                assert(cur_views == fixed_spec.0);
                assert(modified == fixed_spec.1);
                assert(self.sym_map() == built.0);
            }
            if !modified {
                break;
            }
            iteration += 1;
            if guard == 0 {
                let probs = self.collect_problems(&instructions);
                let iters_sat: u32 = if iteration > 0xFFFF_FFFFu128 {
                    0xFFFF_FFFF
                } else {
                    #[verifier::truncate] (iteration as u32)
                };
                return Err(AsmError::NoConvergence { iterations: iters_sat, problems: probs });
            }
            guard = guard - 1;
        }
        match self.pass1(&instructions) {
            Ok(()) => {},
            Err(e) => {
                return Err(e);
            },
        }
        match self.pass2(&instructions) {
            Ok(machine) => Ok((machine, instructions)),
            Err(e) => Err(e),
        }
    }
}


impl Assembler6502 {
    /// Assemble a source text into machine code.
    pub fn assemble_bytes(&mut self, src: &str) -> (r: Result<Vec<u8>, AsmError>)
        ensures
            final(self).origin_spec() == old(self).origin_spec(),
            final(self).bins() == old(self).bins(),
            match spec_assemble(src@, old(self).origin_spec(), old(self).bins()) {
                SpecAssemble::Done(bytes, _, sym) => r is Ok && r->Ok_0@ == bytes
                    && final(self).sym_map() == sym,
                o => r is Err && assemble_err_matches(
                    o,
                    src@,
                    old(self).origin_spec(),
                    old(self).bins(),
                    r->Err_0,
                ),
            },
    {
        match self.assemble(src) {
            Ok(result) => Ok(result.0),
            Err(e) => Err(e),
        }
    }

    /// Assemble into a caller-supplied buffer, which is cleared first.
    pub fn assemble_into(&mut self, src: &str, out: &mut Vec<u8>) -> (r: Result<(), AsmError>)
        ensures
            final(self).origin_spec() == old(self).origin_spec(),
            final(self).bins() == old(self).bins(),
            match spec_assemble(src@, old(self).origin_spec(), old(self).bins()) {
                SpecAssemble::Done(bytes, _, sym) => r is Ok && final(out)@ == bytes
                    && final(self).sym_map() == sym,
                o => r is Err && final(out)@ == Seq::<u8>::empty() && assemble_err_matches(
                    o,
                    src@,
                    old(self).origin_spec(),
                    old(self).bins(),
                    r->Err_0,
                ),
            },
    {
        out.clear();
        match self.assemble(src) {
            Ok(result) => {
                let bytes = result.0;
                out.extend_from_slice(bytes.as_slice());
                proof {
                    assert(Seq::<u8>::empty() + bytes@ =~= bytes@);
                }
                Ok(())
            },
            Err(e) => Err(e),
        }
    }

    /// Assemble and also return the final, possibly rewritten item
    /// list.
    pub fn assemble_full(&mut self, src: &str) -> (r: Result<(Vec<u8>, Vec<Item>), AsmError>)
        ensures
            final(self).origin_spec() == old(self).origin_spec(),
            final(self).bins() == old(self).bins(),
            match spec_assemble(src@, old(self).origin_spec(), old(self).bins()) {
                SpecAssemble::Done(bytes, items, sym) => r is Ok && r->Ok_0.0@ == bytes
                    && r->Ok_0.1@.map_values(|it: Item| lexer::item_view(it)) == items
                    && final(self).sym_map() == sym,
                o => r is Err && assemble_err_matches(
                    o,
                    src@,
                    old(self).origin_spec(),
                    old(self).bins(),
                    r->Err_0,
                ),
            },
    {
        self.assemble(src)
    }

    /// Assemble and return a copy of the resolved symbol entries.
    pub fn assemble_with_symbols(&mut self, src: &str) -> (r: Result<
        (Vec<u8>, Vec<(String, u16)>),
        AsmError,
    >)
        ensures
            final(self).origin_spec() == old(self).origin_spec(),
            final(self).bins() == old(self).bins(),
            match spec_assemble(src@, old(self).origin_spec(), old(self).bins()) {
                SpecAssemble::Done(bytes, _, sym) => r is Ok && r->Ok_0.0@ == bytes
                    && crate::symbol::labels_map(r->Ok_0.1@) == sym && final(self).sym_map()
                    == sym,
                o => r is Err && assemble_err_matches(
                    o,
                    src@,
                    old(self).origin_spec(),
                    old(self).bins(),
                    r->Err_0,
                ),
            },
    {
        match self.assemble(src) {
            Ok(result) => Ok((result.0, self.symbols.clone_labels())),
            Err(e) => Err(e),
        }
    }
}


// ===== The per-byte address map =====

/// The addresses of `n` consecutive bytes starting at `pc`.
pub open spec fn addr_run(pc: u16, n: int) -> Seq<u16> {
    Seq::new(if n >= 0 {
        n as nat
    } else {
        0
    }, |k: int| spec_advance(pc, k))
}

/// The first failure among a directive's expressions, all evaluated at
/// the directive's start address.
pub open spec fn spec_check_exprs(
    es: Seq<SpecExpr>,
    j: int,
    sym: Map<Seq<char>, u16>,
    pc: u16,
) -> Option<EvalOutcome>
    decreases es.len() - j,
{
    if j < 0 || j >= es.len() {
        None
    } else {
        match spec_eval(es[j], sym, pc) {
            EvalOutcome::Value(_) => spec_check_exprs(es, j + 1, sym, pc),
            out => Some(out),
        }
    }
}

/// Why building the address map fails.
pub enum SpecMapErr {
    Eval(EvalOutcome),
    Resolve(Seq<char>, u16, SpecResolveErr),
}

/// How an address-map failure surfaces as an error value.
pub open spec fn map_err_matches(k: SpecMapErr, e: AsmError) -> bool {
    match k {
        SpecMapErr::Eval(out) => eval_err_matches(out, e),
        SpecMapErr::Resolve(m, pc, rk) => resolve_err_matches(rk, m, pc, e),
    }
}

/// One item's contribution to the address map: the addresses of its
/// bytes and the address that follows it; an unregistered binary
/// contributes nothing and is passed over.
pub open spec fn spec_map_step(
    it: SpecItem,
    sym: Map<Seq<char>, u16>,
    pc: u16,
    bins: Map<Seq<char>, Seq<u8>>,
) -> Result<(Seq<u16>, u16), SpecMapErr> {
    match it {
        SpecItem::Label(_) => Ok((Seq::<u16>::empty(), pc)),
        SpecItem::Constant(_, _) => Ok((Seq::<u16>::empty(), pc)),
        SpecItem::Org(e) => match spec_eval(e, sym, pc) {
            EvalOutcome::Value(v) => Ok((Seq::<u16>::empty(), low16(v))),
            out => Err(SpecMapErr::Eval(out)),
        },
        SpecItem::Data(es) => match spec_check_exprs(es, 0, sym, pc) {
            Some(out) => Err(SpecMapErr::Eval(out)),
            None => Ok((addr_run(pc, es.len() as int), spec_advance(pc, es.len() as int))),
        },
        SpecItem::Words(es) => match spec_check_exprs(es, 0, sym, pc) {
            Some(out) => Err(SpecMapErr::Eval(out)),
            None => {
                let n = vstd::wrapping::usize_specs::wrapping_mul(es.len() as usize, 2) as int;
                Ok((addr_run(pc, n), spec_advance(pc, n)))
            },
        },
        SpecItem::Text(t) => {
            let n = (vstd::utf8::encode_utf8(t).len() as usize) as int;
            Ok((addr_run(pc, n), spec_advance(pc, n)))
        },
        SpecItem::IncBin(f) => if bins.contains_key(f) {
            let n = bins[f].len() as int;
            Ok((addr_run(pc, n), spec_advance(pc, n)))
        } else {
            Ok((Seq::<u16>::empty(), pc))
        },
        SpecItem::Instruction { mnemonic: m, operand: op } => match spec_resolve(m, op, sym, pc) {
            SpecResolve::Bytes(bs) => Ok(
                (addr_run(pc, bs.len() as int), spec_advance(pc, bs.len() as int)),
            ),
            SpecResolve::Fail(rk) => Err(SpecMapErr::Resolve(m, pc, rk)),
        },
    }
}

/// The address of every emitted byte, walking the final items.
pub open spec fn spec_addr_map(
    items: Seq<SpecItem>,
    i: int,
    sym: Map<Seq<char>, u16>,
    pc: u16,
    bins: Map<Seq<char>, Seq<u8>>,
) -> Result<Seq<u16>, SpecMapErr>
    decreases items.len() - i,
{
    if i < 0 || i >= items.len() {
        Ok(Seq::<u16>::empty())
    } else {
        match spec_map_step(items[i], sym, pc, bins) {
            Err(k) => Err(k),
            Ok(step) => match spec_addr_map(items, i + 1, sym, step.1, bins) {
                Ok(rest) => Ok(step.0 + rest),
                Err(k) => Err(k),
            },
        }
    }
}

impl Assembler6502 {
    /// Push `n` consecutive addresses starting at `pc`, pairing each
    /// with its position in the map; returns the next address.
    fn push_addr_run(map: &mut Vec<(usize, u16)>, pc: u16, n: usize) -> (r: u16)
        ensures
            final(map)@.len() == old(map)@.len() + n,
            final(map)@.take(old(map)@.len() as int) == old(map)@,
            forall|j: int| 0 <= j < old(map)@.len() ==> #[trigger] final(map)@[j] == old(map)@[j],
            forall|j: int|
                old(map)@.len() <= j < final(map)@.len() ==> #[trigger] final(map)@[j] == (
                (j as usize),
                addr_run(pc, n as int)[j - old(map)@.len()],
            ),
            final(map)@.len() <= usize::MAX,
            r == spec_advance(pc, n as int),
    {
        let ghost base = map@.len() as int;
        let ghost run = addr_run(pc, n as int);
        let mut k: usize = 0;
        while k < n
            invariant
                k <= n,
                map@.len() == base + k,
                base == old(map)@.len(),
                run == addr_run(pc, n as int),
                map@.take(base) == old(map)@,
                forall|j: int|
                    base <= j < map@.len() ==> #[trigger] map@[j] == ((j as usize), run[j - base]),
            decreases n - k,
        {
            let idx = map.len();
            let a = pc.wrapping_add(#[verifier::truncate] (k as u16));
            map.push((idx, a));
            proof {
                assert(map@.take(base) =~= old(map)@);
                assert(a == spec_advance(pc, k as int));
                assert(run[k as int] == spec_advance(pc, k as int));
            }
            k += 1;
        }
        // reading the length here records that it fits in a usize,
        // which the last postcondition needs
        let _ = map.len();
        pc.wrapping_add(#[verifier::truncate] (n as u16))
    }
}



impl Assembler6502 {
    /// Check that every expression of a directive evaluates at `pc`.
    fn check_exprs(&self, exprs: &Vec<crate::expr::Expr>, pc: u16) -> (r: Result<(), AsmError>)
        ensures
            match spec_check_exprs(
                exprs@.map_values(|e2: crate::expr::Expr| crate::expr::expr_view(e2)),
                0,
                self.sym_map(),
                pc,
            ) {
                None => r is Ok,
                Some(out) => r is Err && eval_err_matches(out, r->Err_0),
            },
    {
        let ghost es = exprs@.map_values(|e2: crate::expr::Expr| crate::expr::expr_view(e2));
        let ghost sym2 = self.sym_map();
        let nex = exprs.len();
        let mut j: usize = 0;
        while j < nex
            invariant
                nex == exprs@.len(),
                es == exprs@.map_values(|e2: crate::expr::Expr| crate::expr::expr_view(e2)),
                j <= nex,
                sym2 == self.sym_map(),
                forall|jj: int| 0 <= jj < j ==> spec_eval(es[jj], sym2, pc) is Value,
            decreases nex - j,
        {
            let value = {
                let ev = ExpressionEvaluator::new(&self.symbols, pc);
                ev.evaluate_u16(&exprs[j])
            };
            proof {
                assert(es[j as int] == crate::expr::expr_view(exprs@[j as int]));
            }
            match value {
                Ok(_) => {},
                Err(e) => {
                    proof {
                        lemma_check_exprs_first(es, sym2, pc, j as int);
                    }
                    return Err(e);
                },
            }
            j += 1;
        }
        proof {
            lemma_check_exprs_none(es, sym2, pc);
        }
        Ok(())
    }
}


impl Assembler6502 {
    /// Apply one item to the address map.
    fn addr_map_step(&self, inst: &Item, pc: u16, map: &mut Vec<(usize, u16)>) -> (r: Result<
        u16,
        AsmError,
    >)
        requires
            forall|j: int| 0 <= j < old(map)@.len() ==> (#[trigger] old(map)@[j]).0 == j,
        ensures
            match spec_map_step(inst@, self.sym_map(), pc, self.bins()) {
                Ok(step) => r is Ok && r->Ok_0 == step.1 && final(map)@.map_values(
                    |p: (usize, u16)| p.1,
                ) == old(map)@.map_values(|p: (usize, u16)| p.1) + step.0 && (forall|j: int|
                    0 <= j < final(map)@.len() ==> (#[trigger] final(map)@[j]).0 == j),
                Err(k) => r is Err && map_err_matches(k, r->Err_0),
            },
    {
        let ghost av = |p: (usize, u16)| p.1;
        let ghost map0 = map@;
        match inst {
            Item::Label(_) => {
                proof {
                    assert(map@.map_values(av) =~= map0.map_values(av) + Seq::<u16>::empty());
                }
                Ok(pc)
            },
            Item::Constant(_, _) => {
                proof {
                    assert(map@.map_values(av) =~= map0.map_values(av) + Seq::<u16>::empty());
                }
                Ok(pc)
            },
            Item::Org(expr) => {
                let value = {
                    let ev = ExpressionEvaluator::new(&self.symbols, pc);
                    ev.evaluate_u16(expr)
                };
                match value {
                    Ok(v) => {
                        proof {
                            assert(map@.map_values(av) =~= map0.map_values(av)
                                + Seq::<u16>::empty());
                        }
                        Ok(v)
                    },
                    Err(e) => Err(e),
                }
            },
            Item::Data(exprs) => {
                match self.check_exprs(exprs, pc) {
                    Ok(()) => {},
                    Err(e) => {
                        return Err(e);
                    },
                }
                let nex = exprs.len();
                let next = Self::push_addr_run(map, pc, nex);
                proof {
                    assert(map@.map_values(av) =~= map0.map_values(av) + addr_run(pc, nex as int));
                    assert forall|j: int| 0 <= j < map@.len() implies (#[trigger] map@[j]).0
                        == j by {
                        if j < map0.len() {
                            assert(map@[j] == map0[j]);
                        }
                    }
                }
                Ok(next)
            },
            Item::Words(exprs) => {
                match self.check_exprs(exprs, pc) {
                    Ok(()) => {},
                    Err(e) => {
                        return Err(e);
                    },
                }
                let total = exprs.len().wrapping_mul(2);
                let next = Self::push_addr_run(map, pc, total);
                proof {
                    assert(map@.map_values(av) =~= map0.map_values(av) + addr_run(
                        pc,
                        total as int,
                    ));
                    assert forall|j: int| 0 <= j < map@.len() implies (#[trigger] map@[j]).0
                        == j by {
                        if j < map0.len() {
                            assert(map@[j] == map0[j]);
                        }
                    }
                }
                Ok(next)
            },
            Item::String(st) => {
                let blen = st.as_str().as_bytes().len();
                let next = Self::push_addr_run(map, pc, blen);
                proof {
                    assert(map@.map_values(av) =~= map0.map_values(av) + addr_run(pc, blen as int));
                    assert forall|j: int| 0 <= j < map@.len() implies (#[trigger] map@[j]).0
                        == j by {
                        if j < map0.len() {
                            assert(map@[j] == map0[j]);
                        }
                    }
                }
                Ok(next)
            },
            Item::IncBin(filename) => {
                let blen_opt = match self.get_binary(filename.as_str()) {
                    Some(bytes) => Some(bytes.len()),
                    None => None,
                };
                match blen_opt {
                    Some(blen) => {
                        let next = Self::push_addr_run(map, pc, blen);
                        proof {
                            assert(map@.map_values(av) =~= map0.map_values(av) + addr_run(
                                pc,
                                blen as int,
                            ));
                            assert forall|j: int| 0 <= j < map@.len() implies (
                            #[trigger] map@[j]).0 == j by {
                                if j < map0.len() {
                                    assert(map@[j] == map0[j]);
                                }
                            }
                        }
                        Ok(next)
                    },
                    None => {
                        proof {
                            assert(map@.map_values(av) =~= map0.map_values(av)
                                + Seq::<u16>::empty());
                        }
                        Ok(pc)
                    },
                }
            },
            Item::Instruction { mnemonic, operand } => {
                let op_ref: Option<&str> = match operand {
                    Some(o) => Some(o.as_str()),
                    None => None,
                };
                match self.assemble_instruction(mnemonic.as_str(), op_ref, pc) {
                    Ok(b) => {
                        let blen = b.len();
                        let next = Self::push_addr_run(map, pc, blen);
                        proof {
                            assert(map@.map_values(av) =~= map0.map_values(av) + addr_run(
                                pc,
                                blen as int,
                            ));
                            assert forall|j: int| 0 <= j < map@.len() implies (
                            #[trigger] map@[j]).0 == j by {
                                if j < map0.len() {
                                    assert(map@[j] == map0[j]);
                                }
                            }
                        }
                        Ok(next)
                    },
                    Err(e) => Err(e),
                }
            },
        }
    }
}

impl Assembler6502 {
    /// Assemble and also return, for every emitted byte, its position
    /// in the output paired with the address it lands at.
    #[verifier::rlimit(80)]
    pub fn assemble_with_addr_map(&mut self, src: &str) -> (r: Result<
        (Vec<u8>, Vec<(usize, u16)>),
        AsmError,
    >)
        ensures
            final(self).origin_spec() == old(self).origin_spec(),
            final(self).bins() == old(self).bins(),
            match spec_assemble(src@, old(self).origin_spec(), old(self).bins()) {
                SpecAssemble::Done(bytes, items, sym) => match spec_addr_map(
                    items,
                    0,
                    sym,
                    old(self).origin_spec(),
                    old(self).bins(),
                ) {
                    Ok(addrs) => r is Ok && r->Ok_0.0@ == bytes && r->Ok_0.1@.len() == addrs.len()
                        && forall|j: int|
                        0 <= j < addrs.len() ==> #[trigger] r->Ok_0.1@[j] == ((j as usize), addrs[j]),
                    Err(k) => r is Err && map_err_matches(k, r->Err_0),
                },
                o => r is Err && assemble_err_matches(
                    o,
                    src@,
                    old(self).origin_spec(),
                    old(self).bins(),
                    r->Err_0,
                ),
            },
    {
        let result = match self.assemble(src) {
            Ok(result) => result,
            Err(e) => {
                return Err(e);
            },
        };
        let bytes = result.0;
        let items = result.1;
        let ghost views = items@.map_values(|it: Item| lexer::item_view(it));
        let ghost sym2 = self.sym_map();
        let ghost bins = self.bins();
        let ghost goal = spec_addr_map(views, 0, sym2, self.origin_spec(), bins);
        let n = items.len();
        let mut map: Vec<(usize, u16)> = Vec::new();
        let mut pc: u16 = self.start_address;
        let mut i: usize = 0;
        while i < n
            invariant
                n == items@.len(),
                views == items@.map_values(|it: Item| lexer::item_view(it)),
                i <= n,
                sym2 == self.sym_map(),
                bins == self.bins(),
                self.origin_spec() == old(self).origin_spec(),
                self.bins() == old(self).bins(),
                goal == spec_addr_map(views, 0, sym2, self.origin_spec(), bins),
                spec_assemble(src@, old(self).origin_spec(), old(self).bins())
                    == SpecAssemble::Done(bytes@, views, sym2),
                forall|j: int| 0 <= j < map@.len() ==> (#[trigger] map@[j]).0 == j,
                match spec_addr_map(views, i as int, sym2, pc, bins) {
                    Ok(rest) => goal is Ok && goal->Ok_0 == map@.map_values(
                        |p: (usize, u16)| p.1,
                    ) + rest,
                    Err(k) => goal == Err::<Seq<u16>, SpecMapErr>(k),
                },
            decreases n - i,
        {
            let ghost pc0 = pc;
            let ghost map0 = map@;
            let inst = &items[i];
            proof {
                assert(views[i as int] == inst@);
            }
            match self.addr_map_step(inst, pc, &mut map) {
                Ok(next) => {
                    pc = next;
                },
                Err(e) => {
                    return Err(e);
                },
            }
            proof {
                let step = spec_map_step(views[i as int], sym2, pc0, bins);
                let rest = spec_addr_map(views, i + 1, sym2, pc, bins);
                if step is Ok && rest is Ok {
                    assert(map0.map_values(|p: (usize, u16)| p.1) + (step->Ok_0.0 + rest->Ok_0)
                        =~= map@.map_values(|p: (usize, u16)| p.1) + rest->Ok_0);
                }
            }
            i += 1;
        }
        proof {
            assert(spec_addr_map(views, n as int, sym2, pc, bins) == Ok::<Seq<u16>, SpecMapErr>(
                Seq::<u16>::empty(),
            ));
            assert(map@.map_values(|p: (usize, u16)| p.1) + Seq::<u16>::empty() =~= map@.map_values(
                |p: (usize, u16)| p.1,
            ));
        }
        Ok((bytes, map))
    }
}

/// A loop that found no failing expression matches the spec check.
proof fn lemma_check_exprs_none(es: Seq<SpecExpr>, sym: Map<Seq<char>, u16>, pc: u16)
    requires
        forall|jj: int| 0 <= jj < es.len() ==> spec_eval(es[jj], sym, pc) is Value,
    ensures
        spec_check_exprs(es, 0, sym, pc) is None,
{
    lemma_check_exprs_from(es, sym, pc, 0);
}

proof fn lemma_check_exprs_from(es: Seq<SpecExpr>, sym: Map<Seq<char>, u16>, pc: u16, j: int)
    requires
        0 <= j <= es.len(),
        forall|jj: int| j <= jj < es.len() ==> spec_eval(es[jj], sym, pc) is Value,
    ensures
        spec_check_exprs(es, j, sym, pc) is None,
    decreases es.len() - j,
{
    if j < es.len() {
        lemma_check_exprs_from(es, sym, pc, j + 1);
    }
}

/// The first failing expression determines the spec check's outcome.
proof fn lemma_check_exprs_first(es: Seq<SpecExpr>, sym: Map<Seq<char>, u16>, pc: u16, j: int)
    requires
        0 <= j < es.len(),
        forall|jj: int| 0 <= jj < j ==> spec_eval(es[jj], sym, pc) is Value,
        !(spec_eval(es[j], sym, pc) is Value),
    ensures
        spec_check_exprs(es, 0, sym, pc) == Some(spec_eval(es[j], sym, pc)),
{
    lemma_check_exprs_first_from(es, sym, pc, 0, j);
}

proof fn lemma_check_exprs_first_from(
    es: Seq<SpecExpr>,
    sym: Map<Seq<char>, u16>,
    pc: u16,
    start: int,
    j: int,
)
    requires
        0 <= start <= j < es.len(),
        forall|jj: int| start <= jj < j ==> spec_eval(es[jj], sym, pc) is Value,
        !(spec_eval(es[j], sym, pc) is Value),
    ensures
        spec_check_exprs(es, start, sym, pc) == Some(spec_eval(es[j], sym, pc)),
    decreases j - start,
{
    if start < j {
        lemma_check_exprs_first_from(es, sym, pc, start + 1, j);
    }
}


// ===== Laws =====

/// A rewriting pass that reports no modification returns the items
/// unchanged from position `i` on.
proof fn lemma_fix_unmodified_identity(
    items: Seq<SpecItem>,
    i: int,
    sym: Map<Seq<char>, u16>,
    addr: u16,
    counter: int,
    bins: Map<Seq<char>, Seq<u8>>,
)
    requires
        0 <= i <= items.len(),
        !spec_fix_items(items, i, sym, addr, counter, bins).1,
    ensures
        spec_fix_items(items, i, sym, addr, counter, bins).0 == items.skip(i),
    decreases items.len() - i,
{
    if i == items.len() {
        assert(items.skip(i) =~= Seq::<SpecItem>::empty());
    } else {
        let it = items[i];
        let r = spec_fix_items(items, i, sym, addr, counter, bins);
        match it {
            SpecItem::Org(e) => {
                let addr2 = match spec_eval(e, sym, addr) {
                    EvalOutcome::Value(v) => low16(v),
                    _ => addr,
                };
                lemma_fix_unmodified_identity(items, i + 1, sym, addr2, counter, bins);
            },
            SpecItem::Label(_) => {
                lemma_fix_unmodified_identity(items, i + 1, sym, addr, counter, bins);
            },
            SpecItem::Constant(_, _) => {
                lemma_fix_unmodified_identity(items, i + 1, sym, addr, counter, bins);
            },
            SpecItem::Instruction { mnemonic: m, operand: op } => {
                let addr2 = match spec_item_size(it, sym, addr, bins) {
                    Some(sz) => spec_advance(addr, sz),
                    None => addr,
                };
                lemma_fix_unmodified_identity(items, i + 1, sym, addr2, counter, bins);
            },
            _ => {
                let addr2 = match spec_item_size(it, sym, addr, bins) {
                    Some(sz) => spec_advance(addr, sz),
                    None => addr,
                };
                lemma_fix_unmodified_identity(items, i + 1, sym, addr2, counter, bins);
            },
        }
        assert(seq![it] + items.skip(i + 1) =~= items.skip(i));
    }
}

/// A program whose branches are all in range is already a fixed point:
/// the rewriting loop converges at once and hands the item list back
/// unchanged, whatever budget and pass count it starts from.  Running
/// the relaxation again on its own output therefore changes nothing,
/// and the emitted bytes are the same.
pub proof fn lemma_relaxation_idempotent(
    items: Seq<SpecItem>,
    guard: int,
    iteration: int,
    origin: u16,
    bins: Map<Seq<char>, Seq<u8>>,
)
    requires
        !spec_fix_items(
            items,
            0,
            spec_build_symbols(items, 0, Map::<Seq<char>, u16>::empty(), origin, bins).0,
            origin,
            0,
            bins,
        ).1,
    ensures
        spec_relax_loop(items, guard, iteration, origin, bins) == SpecRelax::Converged(items),
{
    let built = spec_build_symbols(items, 0, Map::<Seq<char>, u16>::empty(), origin, bins);
    lemma_fix_unmodified_identity(items, 0, built.0, origin, 0, bins);
    assert(items.skip(0) =~= items);
}


/// A program whose branches are all in range emits exactly the items
/// it parsed to: the rewriting loop neither rewrites nor gives up, so
/// assembling such a program a second time walks the same items and
/// produces the same bytes.
pub proof fn lemma_short_branches_assemble_unchanged(
    src: Seq<char>,
    origin: u16,
    bins: Map<Seq<char>, Seq<u8>>,
    items: Seq<SpecItem>,
)
    requires
        lexer::spec_parse_source(src) == lexer::SpecSource::Items(items),
        !spec_fix_items(
            items,
            0,
            spec_build_symbols(items, 0, Map::<Seq<char>, u16>::empty(), origin, bins).0,
            origin,
            0,
            bins,
        ).1,
    ensures
        match spec_assemble(src, origin, bins) {
            SpecAssemble::Done(_, emitted, _) => emitted == items,
            SpecAssemble::ParseErr(_, _) => false,
            SpecAssemble::NoConverge(_, _, _) => false,
            SpecAssemble::PassErr(_) => true,
        },
{
    lemma_relaxation_idempotent(items, spec_count_branches(items) + 2, 0, origin, bins);
}

/// Assembly is a function of the source text, the origin, and the
/// registered binaries alone: two runs over the same inputs agree in
/// every byte.  Nothing survives from one run into the next.
pub proof fn lemma_assemble_deterministic(
    src: Seq<char>,
    origin: u16,
    bins: Map<Seq<char>, Seq<u8>>,
    first: SpecAssemble,
    second: SpecAssemble,
)
    requires
        first == spec_assemble(src, origin, bins),
        second == spec_assemble(src, origin, bins),
    ensures
        first == second,
{
}

} // verus!
