//! Addressing-mode helpers and the opcode tables.

use asm6502::{parse_addr_override, is_branch, AddrMode, AddrOverride, OpcodeTables, SymbolTable};

#[test]
fn test_addr_override_prefixes() {
    let (rest, ovr) = parse_addr_override("<$80");
    assert_eq!(rest, "$80");
    assert_eq!(ovr, AddrOverride::ForceZp);

    let (rest, ovr) = parse_addr_override(">$80,X");
    assert_eq!(rest, "$80,X");
    assert_eq!(ovr, AddrOverride::ForceAbs);

    let (rest, ovr) = parse_addr_override("$80");
    assert_eq!(rest, "$80");
    assert_eq!(ovr, AddrOverride::Auto);
}

#[test]
fn test_branch_mnemonics() {
    for m in ["BCC", "BCS", "BEQ", "BMI", "BNE", "BPL", "BVC", "BVS"] {
        assert!(is_branch(m));
    }
    assert!(!is_branch("JMP"));
    assert!(!is_branch("LDA"));
    assert!(!is_branch("beq"));
}

#[test]
fn test_opcode_tables() {
    let tables = OpcodeTables::new();
    assert_eq!(tables.implied("LDA"), Some(0xA9));
    assert_eq!(tables.implied("NOP"), Some(0xEA));
    assert_eq!(tables.implied("BRK"), Some(0x00));
    assert_eq!(tables.implied("nope"), None);

    assert_eq!(tables.mode("LDA", AddrMode::Zeropage), Some(0xA5));
    assert_eq!(tables.mode("LDA", AddrMode::Absolute), Some(0xAD));
    assert_eq!(tables.mode("LDA", AddrMode::IndirectY), Some(0xB1));
    assert_eq!(tables.mode("STX", AddrMode::AbsoluteX), None);
    assert_eq!(tables.mode("CPY", AddrMode::Absolute), Some(0xCC));
}

#[test]
fn test_symbol_entry_list() {
    let mut symbols = SymbolTable::new();
    symbols.insert("first".to_string(), 0x10);
    symbols.insert("second".to_string(), 0x20);
    let entries = symbols.labels();
    assert!(entries.iter().any(|(n, v)| n == "first" && *v == 0x10));
    let copy = symbols.clone_labels();
    assert!(copy.iter().any(|(n, v)| n == "second" && *v == 0x20));
}
