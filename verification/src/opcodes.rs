//! The 6502 opcode tables.
//!
//! One table maps a mnemonic to its single-byte opcode in the implied,
//! accumulator, or immediate form; a second maps a mnemonic and an
//! addressing mode to the opcode of that form.  Both are fixed at
//! construction and never change.

use vstd::prelude::*;
use crate::text;

verus! {

/// An addressing mode with its own opcode per mnemonic.
#[derive(Debug, Clone, Copy, PartialEq, Eq, Structural)]
pub enum AddrMode {
    Zeropage,
    ZeropageX,
    ZeropageY,
    Absolute,
    AbsoluteX,
    AbsoluteY,
    IndirectX,
    IndirectY,
}

/// The opcode of a mnemonic in its implied, accumulator, or immediate
/// form.
pub open spec fn spec_implied_opcode(m: Seq<char>) -> Option<u8> {
    if m == "LDA"@ {
        Some(0xA9u8)
    } else if m == "LDX"@ {
        Some(0xA2u8)
    } else if m == "LDY"@ {
        Some(0xA0u8)
    } else if m == "STA"@ {
        Some(0x8Du8)
    } else if m == "STX"@ {
        Some(0x8Eu8)
    } else if m == "STY"@ {
        Some(0x8Cu8)
    } else if m == "ADC"@ {
        Some(0x69u8)
    } else if m == "SBC"@ {
        Some(0xE9u8)
    } else if m == "AND"@ {
        Some(0x29u8)
    } else if m == "ORA"@ {
        Some(0x09u8)
    } else if m == "EOR"@ {
        Some(0x49u8)
    } else if m == "CMP"@ {
        Some(0xC9u8)
    } else if m == "CPX"@ {
        Some(0xE0u8)
    } else if m == "CPY"@ {
        Some(0xC0u8)
    } else if m == "INC"@ {
        Some(0xE6u8)
    } else if m == "INX"@ {
        Some(0xE8u8)
    } else if m == "INY"@ {
        Some(0xC8u8)
    } else if m == "DEC"@ {
        Some(0xC6u8)
    } else if m == "DEX"@ {
        Some(0xCAu8)
    } else if m == "DEY"@ {
        Some(0x88u8)
    } else if m == "ASL"@ {
        Some(0x0Au8)
    } else if m == "LSR"@ {
        Some(0x4Au8)
    } else if m == "ROL"@ {
        Some(0x2Au8)
    } else if m == "ROR"@ {
        Some(0x6Au8)
    } else if m == "JMP"@ {
        Some(0x4Cu8)
    } else if m == "JSR"@ {
        Some(0x20u8)
    } else if m == "RTS"@ {
        Some(0x60u8)
    } else if m == "RTI"@ {
        Some(0x40u8)
    } else if m == "BCC"@ {
        Some(0x90u8)
    } else if m == "BCS"@ {
        Some(0xB0u8)
    } else if m == "BEQ"@ {
        Some(0xF0u8)
    } else if m == "BMI"@ {
        Some(0x30u8)
    } else if m == "BNE"@ {
        Some(0xD0u8)
    } else if m == "BPL"@ {
        Some(0x10u8)
    } else if m == "BVC"@ {
        Some(0x50u8)
    } else if m == "BVS"@ {
        Some(0x70u8)
    } else if m == "CLC"@ {
        Some(0x18u8)
    } else if m == "SEC"@ {
        Some(0x38u8)
    } else if m == "CLD"@ {
        Some(0xD8u8)
    } else if m == "SED"@ {
        Some(0xF8u8)
    } else if m == "CLI"@ {
        Some(0x58u8)
    } else if m == "SEI"@ {
        Some(0x78u8)
    } else if m == "CLV"@ {
        Some(0xB8u8)
    } else if m == "TAX"@ {
        Some(0xAAu8)
    } else if m == "TXA"@ {
        Some(0x8Au8)
    } else if m == "TAY"@ {
        Some(0xA8u8)
    } else if m == "TYA"@ {
        Some(0x98u8)
    } else if m == "TSX"@ {
        Some(0xBAu8)
    } else if m == "TXS"@ {
        Some(0x9Au8)
    } else if m == "PHA"@ {
        Some(0x48u8)
    } else if m == "PLA"@ {
        Some(0x68u8)
    } else if m == "PHP"@ {
        Some(0x08u8)
    } else if m == "PLP"@ {
        Some(0x28u8)
    } else if m == "BIT"@ {
        Some(0x24u8)
    } else if m == "NOP"@ {
        Some(0xEAu8)
    } else if m == "BRK"@ {
        Some(0x00u8)
    } else {
        None
    }
}

/// The opcode of a mnemonic in the given addressing mode.
pub open spec fn spec_mode_opcode(m: Seq<char>, mode: AddrMode) -> Option<u8> {
    if m == "LDA"@ {
        match mode {
            AddrMode::Zeropage => Some(0xA5u8),
            AddrMode::ZeropageX => Some(0xB5u8),
            AddrMode::ZeropageY => None,
            AddrMode::Absolute => Some(0xADu8),
            AddrMode::AbsoluteX => Some(0xBDu8),
            AddrMode::AbsoluteY => Some(0xB9u8),
            AddrMode::IndirectX => Some(0xA1u8),
            AddrMode::IndirectY => Some(0xB1u8),
        }
    } else if m == "LDX"@ {
        match mode {
            AddrMode::Zeropage => Some(0xA6u8),
            AddrMode::ZeropageX => None,
            AddrMode::ZeropageY => Some(0xB6u8),
            AddrMode::Absolute => Some(0xAEu8),
            AddrMode::AbsoluteX => None,
            AddrMode::AbsoluteY => Some(0xBEu8),
            AddrMode::IndirectX => None,
            AddrMode::IndirectY => None,
        }
    } else if m == "LDY"@ {
        match mode {
            AddrMode::Zeropage => Some(0xA4u8),
            AddrMode::ZeropageX => Some(0xB4u8),
            AddrMode::ZeropageY => None,
            AddrMode::Absolute => Some(0xACu8),
            AddrMode::AbsoluteX => Some(0xBCu8),
            AddrMode::AbsoluteY => None,
            AddrMode::IndirectX => None,
            AddrMode::IndirectY => None,
        }
    } else if m == "STA"@ {
        match mode {
            AddrMode::Zeropage => Some(0x85u8),
            AddrMode::ZeropageX => Some(0x95u8),
            AddrMode::ZeropageY => None,
            AddrMode::Absolute => Some(0x8Du8),
            AddrMode::AbsoluteX => Some(0x9Du8),
            AddrMode::AbsoluteY => Some(0x99u8),
            AddrMode::IndirectX => Some(0x81u8),
            AddrMode::IndirectY => Some(0x91u8),
        }
    } else if m == "STX"@ {
        match mode {
            AddrMode::Zeropage => Some(0x86u8),
            AddrMode::ZeropageX => None,
            AddrMode::ZeropageY => Some(0x96u8),
            AddrMode::Absolute => Some(0x8Eu8),
            AddrMode::AbsoluteX => None,
            AddrMode::AbsoluteY => None,
            AddrMode::IndirectX => None,
            AddrMode::IndirectY => None,
        }
    } else if m == "STY"@ {
        match mode {
            AddrMode::Zeropage => Some(0x84u8),
            AddrMode::ZeropageX => Some(0x94u8),
            AddrMode::ZeropageY => None,
            AddrMode::Absolute => Some(0x8Cu8),
            AddrMode::AbsoluteX => None,
            AddrMode::AbsoluteY => None,
            AddrMode::IndirectX => None,
            AddrMode::IndirectY => None,
        }
    } else if m == "ADC"@ {
        match mode {
            AddrMode::Zeropage => Some(0x65u8),
            AddrMode::ZeropageX => Some(0x75u8),
            AddrMode::ZeropageY => None,
            AddrMode::Absolute => Some(0x6Du8),
            AddrMode::AbsoluteX => Some(0x7Du8),
            AddrMode::AbsoluteY => Some(0x79u8),
            AddrMode::IndirectX => Some(0x61u8),
            AddrMode::IndirectY => Some(0x71u8),
        }
    } else if m == "SBC"@ {
        match mode {
            AddrMode::Zeropage => Some(0xE5u8),
            AddrMode::ZeropageX => Some(0xF5u8),
            AddrMode::ZeropageY => None,
            AddrMode::Absolute => Some(0xEDu8),
            AddrMode::AbsoluteX => Some(0xFDu8),
            AddrMode::AbsoluteY => Some(0xF9u8),
            AddrMode::IndirectX => Some(0xE1u8),
            AddrMode::IndirectY => Some(0xF1u8),
        }
    } else if m == "AND"@ {
        match mode {
            AddrMode::Zeropage => Some(0x25u8),
            AddrMode::ZeropageX => Some(0x35u8),
            AddrMode::ZeropageY => None,
            AddrMode::Absolute => Some(0x2Du8),
            AddrMode::AbsoluteX => Some(0x3Du8),
            AddrMode::AbsoluteY => Some(0x39u8),
            AddrMode::IndirectX => Some(0x21u8),
            AddrMode::IndirectY => Some(0x31u8),
        }
    } else if m == "ORA"@ {
        match mode {
            AddrMode::Zeropage => Some(0x05u8),
            AddrMode::ZeropageX => Some(0x15u8),
            AddrMode::ZeropageY => None,
            AddrMode::Absolute => Some(0x0Du8),
            AddrMode::AbsoluteX => Some(0x1Du8),
            AddrMode::AbsoluteY => Some(0x19u8),
            AddrMode::IndirectX => Some(0x01u8),
            AddrMode::IndirectY => Some(0x11u8),
        }
    } else if m == "EOR"@ {
        match mode {
            AddrMode::Zeropage => Some(0x45u8),
            AddrMode::ZeropageX => Some(0x55u8),
            AddrMode::ZeropageY => None,
            AddrMode::Absolute => Some(0x4Du8),
            AddrMode::AbsoluteX => Some(0x5Du8),
            AddrMode::AbsoluteY => Some(0x59u8),
            AddrMode::IndirectX => Some(0x41u8),
            AddrMode::IndirectY => Some(0x51u8),
        }
    } else if m == "CMP"@ {
        match mode {
            AddrMode::Zeropage => Some(0xC5u8),
            AddrMode::ZeropageX => Some(0xD5u8),
            AddrMode::ZeropageY => None,
            AddrMode::Absolute => Some(0xCDu8),
            AddrMode::AbsoluteX => Some(0xDDu8),
            AddrMode::AbsoluteY => Some(0xD9u8),
            AddrMode::IndirectX => Some(0xC1u8),
            AddrMode::IndirectY => Some(0xD1u8),
        }
    } else if m == "CPX"@ {
        match mode {
            AddrMode::Zeropage => Some(0xE4u8),
            AddrMode::ZeropageX => None,
            AddrMode::ZeropageY => None,
            AddrMode::Absolute => Some(0xECu8),
            AddrMode::AbsoluteX => None,
            AddrMode::AbsoluteY => None,
            AddrMode::IndirectX => None,
            AddrMode::IndirectY => None,
        }
    } else if m == "CPY"@ {
        match mode {
            AddrMode::Zeropage => Some(0xC4u8),
            AddrMode::ZeropageX => None,
            AddrMode::ZeropageY => None,
            AddrMode::Absolute => Some(0xCCu8),
            AddrMode::AbsoluteX => None,
            AddrMode::AbsoluteY => None,
            AddrMode::IndirectX => None,
            AddrMode::IndirectY => None,
        }
    } else if m == "BIT"@ {
        match mode {
            AddrMode::Zeropage => Some(0x24u8),
            AddrMode::ZeropageX => None,
            AddrMode::ZeropageY => None,
            AddrMode::Absolute => Some(0x2Cu8),
            AddrMode::AbsoluteX => None,
            AddrMode::AbsoluteY => None,
            AddrMode::IndirectX => None,
            AddrMode::IndirectY => None,
        }
    } else if m == "ASL"@ {
        match mode {
            AddrMode::Zeropage => Some(0x06u8),
            AddrMode::ZeropageX => Some(0x16u8),
            AddrMode::ZeropageY => None,
            AddrMode::Absolute => Some(0x0Eu8),
            AddrMode::AbsoluteX => Some(0x1Eu8),
            AddrMode::AbsoluteY => None,
            AddrMode::IndirectX => None,
            AddrMode::IndirectY => None,
        }
    } else if m == "LSR"@ {
        match mode {
            AddrMode::Zeropage => Some(0x46u8),
            AddrMode::ZeropageX => Some(0x56u8),
            AddrMode::ZeropageY => None,
            AddrMode::Absolute => Some(0x4Eu8),
            AddrMode::AbsoluteX => Some(0x5Eu8),
            AddrMode::AbsoluteY => None,
            AddrMode::IndirectX => None,
            AddrMode::IndirectY => None,
        }
    } else if m == "ROL"@ {
        match mode {
            AddrMode::Zeropage => Some(0x26u8),
            AddrMode::ZeropageX => Some(0x36u8),
            AddrMode::ZeropageY => None,
            AddrMode::Absolute => Some(0x2Eu8),
            AddrMode::AbsoluteX => Some(0x3Eu8),
            AddrMode::AbsoluteY => None,
            AddrMode::IndirectX => None,
            AddrMode::IndirectY => None,
        }
    } else if m == "ROR"@ {
        match mode {
            AddrMode::Zeropage => Some(0x66u8),
            AddrMode::ZeropageX => Some(0x76u8),
            AddrMode::ZeropageY => None,
            AddrMode::Absolute => Some(0x6Eu8),
            AddrMode::AbsoluteX => Some(0x7Eu8),
            AddrMode::AbsoluteY => None,
            AddrMode::IndirectX => None,
            AddrMode::IndirectY => None,
        }
    } else if m == "DEC"@ {
        match mode {
            AddrMode::Zeropage => Some(0xC6u8),
            AddrMode::ZeropageX => Some(0xD6u8),
            AddrMode::ZeropageY => None,
            AddrMode::Absolute => Some(0xCEu8),
            AddrMode::AbsoluteX => Some(0xDEu8),
            AddrMode::AbsoluteY => None,
            AddrMode::IndirectX => None,
            AddrMode::IndirectY => None,
        }
    } else if m == "INC"@ {
        match mode {
            AddrMode::Zeropage => Some(0xE6u8),
            AddrMode::ZeropageX => Some(0xF6u8),
            AddrMode::ZeropageY => None,
            AddrMode::Absolute => Some(0xEEu8),
            AddrMode::AbsoluteX => Some(0xFEu8),
            AddrMode::AbsoluteY => None,
            AddrMode::IndirectX => None,
            AddrMode::IndirectY => None,
        }
    } else if m == "JSR"@ {
        match mode {
            AddrMode::Zeropage => None,
            AddrMode::ZeropageX => None,
            AddrMode::ZeropageY => None,
            AddrMode::Absolute => Some(0x20u8),
            AddrMode::AbsoluteX => None,
            AddrMode::AbsoluteY => None,
            AddrMode::IndirectX => None,
            AddrMode::IndirectY => None,
        }
    } else {
        None
    }
}

/// The opcode tables; their contents are baked in.
pub struct OpcodeTables;

impl OpcodeTables {
    pub fn new() -> (r: Self) {
        OpcodeTables
    }

    /// Look up the implied/accumulator/immediate opcode of `m`.
    pub fn implied(&self, m: &str) -> (r: Option<u8>)
        ensures
            r == spec_implied_opcode(m@),
    {
        if text::str_eq(m, "LDA") {
            Some(0xA9)
        } else if text::str_eq(m, "LDX") {
            Some(0xA2)
        } else if text::str_eq(m, "LDY") {
            Some(0xA0)
        } else if text::str_eq(m, "STA") {
            Some(0x8D)
        } else if text::str_eq(m, "STX") {
            Some(0x8E)
        } else if text::str_eq(m, "STY") {
            Some(0x8C)
        } else if text::str_eq(m, "ADC") {
            Some(0x69)
        } else if text::str_eq(m, "SBC") {
            Some(0xE9)
        } else if text::str_eq(m, "AND") {
            Some(0x29)
        } else if text::str_eq(m, "ORA") {
            Some(0x09)
        } else if text::str_eq(m, "EOR") {
            Some(0x49)
        } else if text::str_eq(m, "CMP") {
            Some(0xC9)
        } else if text::str_eq(m, "CPX") {
            Some(0xE0)
        } else if text::str_eq(m, "CPY") {
            Some(0xC0)
        } else if text::str_eq(m, "INC") {
            Some(0xE6)
        } else if text::str_eq(m, "INX") {
            Some(0xE8)
        } else if text::str_eq(m, "INY") {
            Some(0xC8)
        } else if text::str_eq(m, "DEC") {
            Some(0xC6)
        } else if text::str_eq(m, "DEX") {
            Some(0xCA)
        } else if text::str_eq(m, "DEY") {
            Some(0x88)
        } else if text::str_eq(m, "ASL") {
            Some(0x0A)
        } else if text::str_eq(m, "LSR") {
            Some(0x4A)
        } else if text::str_eq(m, "ROL") {
            Some(0x2A)
        } else if text::str_eq(m, "ROR") {
            Some(0x6A)
        } else if text::str_eq(m, "JMP") {
            Some(0x4C)
        } else if text::str_eq(m, "JSR") {
            Some(0x20)
        } else if text::str_eq(m, "RTS") {
            Some(0x60)
        } else if text::str_eq(m, "RTI") {
            Some(0x40)
        } else if text::str_eq(m, "BCC") {
            Some(0x90)
        } else if text::str_eq(m, "BCS") {
            Some(0xB0)
        } else if text::str_eq(m, "BEQ") {
            Some(0xF0)
        } else if text::str_eq(m, "BMI") {
            Some(0x30)
        } else if text::str_eq(m, "BNE") {
            Some(0xD0)
        } else if text::str_eq(m, "BPL") {
            Some(0x10)
        } else if text::str_eq(m, "BVC") {
            Some(0x50)
        } else if text::str_eq(m, "BVS") {
            Some(0x70)
        } else if text::str_eq(m, "CLC") {
            Some(0x18)
        } else if text::str_eq(m, "SEC") {
            Some(0x38)
        } else if text::str_eq(m, "CLD") {
            Some(0xD8)
        } else if text::str_eq(m, "SED") {
            Some(0xF8)
        } else if text::str_eq(m, "CLI") {
            Some(0x58)
        } else if text::str_eq(m, "SEI") {
            Some(0x78)
        } else if text::str_eq(m, "CLV") {
            Some(0xB8)
        } else if text::str_eq(m, "TAX") {
            Some(0xAA)
        } else if text::str_eq(m, "TXA") {
            Some(0x8A)
        } else if text::str_eq(m, "TAY") {
            Some(0xA8)
        } else if text::str_eq(m, "TYA") {
            Some(0x98)
        } else if text::str_eq(m, "TSX") {
            Some(0xBA)
        } else if text::str_eq(m, "TXS") {
            Some(0x9A)
        } else if text::str_eq(m, "PHA") {
            Some(0x48)
        } else if text::str_eq(m, "PLA") {
            Some(0x68)
        } else if text::str_eq(m, "PHP") {
            Some(0x08)
        } else if text::str_eq(m, "PLP") {
            Some(0x28)
        } else if text::str_eq(m, "BIT") {
            Some(0x24)
        } else if text::str_eq(m, "NOP") {
            Some(0xEA)
        } else if text::str_eq(m, "BRK") {
            Some(0x00)
        } else {
            None
        }
    }

    /// Look up the opcode of `m` in the given addressing mode.
    pub fn mode(&self, m: &str, mode: AddrMode) -> (r: Option<u8>)
        ensures
            r == spec_mode_opcode(m@, mode),
    {
        if text::str_eq(m, "LDA") {
            match mode {
                AddrMode::Zeropage => Some(0xA5),
                AddrMode::ZeropageX => Some(0xB5),
                AddrMode::ZeropageY => None,
                AddrMode::Absolute => Some(0xAD),
                AddrMode::AbsoluteX => Some(0xBD),
                AddrMode::AbsoluteY => Some(0xB9),
                AddrMode::IndirectX => Some(0xA1),
                AddrMode::IndirectY => Some(0xB1),
            }
        } else if text::str_eq(m, "LDX") {
            match mode {
                AddrMode::Zeropage => Some(0xA6),
                AddrMode::ZeropageX => None,
                AddrMode::ZeropageY => Some(0xB6),
                AddrMode::Absolute => Some(0xAE),
                AddrMode::AbsoluteX => None,
                AddrMode::AbsoluteY => Some(0xBE),
                AddrMode::IndirectX => None,
                AddrMode::IndirectY => None,
            }
        } else if text::str_eq(m, "LDY") {
            match mode {
                AddrMode::Zeropage => Some(0xA4),
                AddrMode::ZeropageX => Some(0xB4),
                AddrMode::ZeropageY => None,
                AddrMode::Absolute => Some(0xAC),
                AddrMode::AbsoluteX => Some(0xBC),
                AddrMode::AbsoluteY => None,
                AddrMode::IndirectX => None,
                AddrMode::IndirectY => None,
            }
        } else if text::str_eq(m, "STA") {
            match mode {
                AddrMode::Zeropage => Some(0x85),
                AddrMode::ZeropageX => Some(0x95),
                AddrMode::ZeropageY => None,
                AddrMode::Absolute => Some(0x8D),
                AddrMode::AbsoluteX => Some(0x9D),
                AddrMode::AbsoluteY => Some(0x99),
                AddrMode::IndirectX => Some(0x81),
                AddrMode::IndirectY => Some(0x91),
            }
        } else if text::str_eq(m, "STX") {
            match mode {
                AddrMode::Zeropage => Some(0x86),
                AddrMode::ZeropageX => None,
                AddrMode::ZeropageY => Some(0x96),
                AddrMode::Absolute => Some(0x8E),
                AddrMode::AbsoluteX => None,
                AddrMode::AbsoluteY => None,
                AddrMode::IndirectX => None,
                AddrMode::IndirectY => None,
            }
        } else if text::str_eq(m, "STY") {
            match mode {
                AddrMode::Zeropage => Some(0x84),
                AddrMode::ZeropageX => Some(0x94),
                AddrMode::ZeropageY => None,
                AddrMode::Absolute => Some(0x8C),
                AddrMode::AbsoluteX => None,
                AddrMode::AbsoluteY => None,
                AddrMode::IndirectX => None,
                AddrMode::IndirectY => None,
            }
        } else if text::str_eq(m, "ADC") {
            match mode {
                AddrMode::Zeropage => Some(0x65),
                AddrMode::ZeropageX => Some(0x75),
                AddrMode::ZeropageY => None,
                AddrMode::Absolute => Some(0x6D),
                AddrMode::AbsoluteX => Some(0x7D),
                AddrMode::AbsoluteY => Some(0x79),
                AddrMode::IndirectX => Some(0x61),
                AddrMode::IndirectY => Some(0x71),
            }
        } else if text::str_eq(m, "SBC") {
            match mode {
                AddrMode::Zeropage => Some(0xE5),
                AddrMode::ZeropageX => Some(0xF5),
                AddrMode::ZeropageY => None,
                AddrMode::Absolute => Some(0xED),
                AddrMode::AbsoluteX => Some(0xFD),
                AddrMode::AbsoluteY => Some(0xF9),
                AddrMode::IndirectX => Some(0xE1),
                AddrMode::IndirectY => Some(0xF1),
            }
        } else if text::str_eq(m, "AND") {
            match mode {
                AddrMode::Zeropage => Some(0x25),
                AddrMode::ZeropageX => Some(0x35),
                AddrMode::ZeropageY => None,
                AddrMode::Absolute => Some(0x2D),
                AddrMode::AbsoluteX => Some(0x3D),
                AddrMode::AbsoluteY => Some(0x39),
                AddrMode::IndirectX => Some(0x21),
                AddrMode::IndirectY => Some(0x31),
            }
        } else if text::str_eq(m, "ORA") {
            match mode {
                AddrMode::Zeropage => Some(0x05),
                AddrMode::ZeropageX => Some(0x15),
                AddrMode::ZeropageY => None,
                AddrMode::Absolute => Some(0x0D),
                AddrMode::AbsoluteX => Some(0x1D),
                AddrMode::AbsoluteY => Some(0x19),
                AddrMode::IndirectX => Some(0x01),
                AddrMode::IndirectY => Some(0x11),
            }
        } else if text::str_eq(m, "EOR") {
            match mode {
                AddrMode::Zeropage => Some(0x45),
                AddrMode::ZeropageX => Some(0x55),
                AddrMode::ZeropageY => None,
                AddrMode::Absolute => Some(0x4D),
                AddrMode::AbsoluteX => Some(0x5D),
                AddrMode::AbsoluteY => Some(0x59),
                AddrMode::IndirectX => Some(0x41),
                AddrMode::IndirectY => Some(0x51),
            }
        } else if text::str_eq(m, "CMP") {
            match mode {
                AddrMode::Zeropage => Some(0xC5),
                AddrMode::ZeropageX => Some(0xD5),
                AddrMode::ZeropageY => None,
                AddrMode::Absolute => Some(0xCD),
                AddrMode::AbsoluteX => Some(0xDD),
                AddrMode::AbsoluteY => Some(0xD9),
                AddrMode::IndirectX => Some(0xC1),
                AddrMode::IndirectY => Some(0xD1),
            }
        } else if text::str_eq(m, "CPX") {
            match mode {
                AddrMode::Zeropage => Some(0xE4),
                AddrMode::ZeropageX => None,
                AddrMode::ZeropageY => None,
                AddrMode::Absolute => Some(0xEC),
                AddrMode::AbsoluteX => None,
                AddrMode::AbsoluteY => None,
                AddrMode::IndirectX => None,
                AddrMode::IndirectY => None,
            }
        } else if text::str_eq(m, "CPY") {
            match mode {
                AddrMode::Zeropage => Some(0xC4),
                AddrMode::ZeropageX => None,
                AddrMode::ZeropageY => None,
                AddrMode::Absolute => Some(0xCC),
                AddrMode::AbsoluteX => None,
                AddrMode::AbsoluteY => None,
                AddrMode::IndirectX => None,
                AddrMode::IndirectY => None,
            }
        } else if text::str_eq(m, "BIT") {
            match mode {
                AddrMode::Zeropage => Some(0x24),
                AddrMode::ZeropageX => None,
                AddrMode::ZeropageY => None,
                AddrMode::Absolute => Some(0x2C),
                AddrMode::AbsoluteX => None,
                AddrMode::AbsoluteY => None,
                AddrMode::IndirectX => None,
                AddrMode::IndirectY => None,
            }
        } else if text::str_eq(m, "ASL") {
            match mode {
                AddrMode::Zeropage => Some(0x06),
                AddrMode::ZeropageX => Some(0x16),
                AddrMode::ZeropageY => None,
                AddrMode::Absolute => Some(0x0E),
                AddrMode::AbsoluteX => Some(0x1E),
                AddrMode::AbsoluteY => None,
                AddrMode::IndirectX => None,
                AddrMode::IndirectY => None,
            }
        } else if text::str_eq(m, "LSR") {
            match mode {
                AddrMode::Zeropage => Some(0x46),
                AddrMode::ZeropageX => Some(0x56),
                AddrMode::ZeropageY => None,
                AddrMode::Absolute => Some(0x4E),
                AddrMode::AbsoluteX => Some(0x5E),
                AddrMode::AbsoluteY => None,
                AddrMode::IndirectX => None,
                AddrMode::IndirectY => None,
            }
        } else if text::str_eq(m, "ROL") {
            match mode {
                AddrMode::Zeropage => Some(0x26),
                AddrMode::ZeropageX => Some(0x36),
                AddrMode::ZeropageY => None,
                AddrMode::Absolute => Some(0x2E),
                AddrMode::AbsoluteX => Some(0x3E),
                AddrMode::AbsoluteY => None,
                AddrMode::IndirectX => None,
                AddrMode::IndirectY => None,
            }
        } else if text::str_eq(m, "ROR") {
            match mode {
                AddrMode::Zeropage => Some(0x66),
                AddrMode::ZeropageX => Some(0x76),
                AddrMode::ZeropageY => None,
                AddrMode::Absolute => Some(0x6E),
                AddrMode::AbsoluteX => Some(0x7E),
                AddrMode::AbsoluteY => None,
                AddrMode::IndirectX => None,
                AddrMode::IndirectY => None,
            }
        } else if text::str_eq(m, "DEC") {
            match mode {
                AddrMode::Zeropage => Some(0xC6),
                AddrMode::ZeropageX => Some(0xD6),
                AddrMode::ZeropageY => None,
                AddrMode::Absolute => Some(0xCE),
                AddrMode::AbsoluteX => Some(0xDE),
                AddrMode::AbsoluteY => None,
                AddrMode::IndirectX => None,
                AddrMode::IndirectY => None,
            }
        } else if text::str_eq(m, "INC") {
            match mode {
                AddrMode::Zeropage => Some(0xE6),
                AddrMode::ZeropageX => Some(0xF6),
                AddrMode::ZeropageY => None,
                AddrMode::Absolute => Some(0xEE),
                AddrMode::AbsoluteX => Some(0xFE),
                AddrMode::AbsoluteY => None,
                AddrMode::IndirectX => None,
                AddrMode::IndirectY => None,
            }
        } else if text::str_eq(m, "JSR") {
            match mode {
                AddrMode::Zeropage => None,
                AddrMode::ZeropageX => None,
                AddrMode::ZeropageY => None,
                AddrMode::Absolute => Some(0x20),
                AddrMode::AbsoluteX => None,
                AddrMode::AbsoluteY => None,
                AddrMode::IndirectX => None,
                AddrMode::IndirectY => None,
            }
        } else {
            None
        }
    }
}

} // verus!
