//! Whole-program assembly.

use asm6502::{AsmError, Assembler6502, Either, Item};

#[test]
fn test_minimal_program_bytes() {
    let mut assembler = Assembler6502::new();
    let src = "*=$0800\nLDA #$42\nSTA $0200\n";
    let bytes = assembler.assemble_bytes(src).unwrap();
    assert_eq!(bytes, vec![0xA9, 0x42, 0x8D, 0x00, 0x02]);
}

#[test]
fn test_zero_page_selection_and_forcing() {
    // a label below $0100 selects the zero-page opcode on its own
    let mut assembler = Assembler6502::new();
    let bytes = assembler.assemble_bytes("*=$0050\nzp:\nLDA zp\n").unwrap();
    assert_eq!(bytes, vec![0xA5, 0x50]);

    // forced absolute with `>` yields the three-byte form
    let mut assembler = Assembler6502::new();
    let bytes = assembler.assemble_bytes("*=$0050\nzp:\nLDA >zp\n").unwrap();
    assert_eq!(bytes, vec![0xAD, 0x50, 0x00]);

    // forced zero page with `<` keeps the two-byte form
    let mut assembler = Assembler6502::new();
    let bytes = assembler.assemble_bytes("*=$0050\nzp:\nLDA <zp\n").unwrap();
    assert_eq!(bytes, vec![0xA5, 0x50]);
}

#[test]
fn test_branch_at_the_edge_of_range() {
    // the target sits exactly 127 bytes past the branch: a single
    // two-byte branch
    let filler: String = "a".repeat(127);
    let src = format!("*=$0800\nBEQ target\n.string \"{}\"\ntarget:\nNOP\n", filler);
    let mut assembler = Assembler6502::new();
    let bytes = assembler.assemble_bytes(&src).unwrap();
    assert_eq!(bytes[0], 0xF0);
    assert_eq!(bytes[1], 0x7F);
    assert_eq!(bytes.len(), 2 + 127 + 1);
    assert_eq!(assembler.lookup("target"), Some(0x0881));
}

#[test]
fn test_long_branch_is_rewritten() {
    // one byte more and the branch cannot encode the displacement: it
    // becomes a branch over an absolute jump
    let filler: String = "a".repeat(128);
    let src = format!("*=$0800\nBEQ target\n.string \"{}\"\ntarget:\nNOP\n", filler);
    let mut assembler = Assembler6502::new();
    let bytes = assembler.assemble_bytes(&src).unwrap();
    // BEQ over the jump, then JMP to the real target
    assert_eq!(&bytes[0..5], &[0xF0, 0x03, 0x4C, 0x85, 0x08]);
    assert_eq!(bytes.len(), 5 + 128 + 1);
    // the symbol table reflects the expanded layout
    assert_eq!(assembler.lookup("target"), Some(0x0885));
    assert_eq!(assembler.lookup("__skip_0"), Some(0x0805));
}

#[test]
fn test_backward_branch_encoding() {
    let mut assembler = Assembler6502::new();
    let bytes = assembler.assemble_bytes("*=$0800\nloop_top:\nNOP\nBNE loop_top\n").unwrap();
    // offset = $0800 - ($0801 + 2) = -3, two's complement $FD
    assert_eq!(bytes, vec![0xEA, 0xD0, 0xFD]);
}

#[test]
fn test_constant_matches_direct_value() {
    let mut with_constant = Assembler6502::new();
    let a = with_constant
        .assemble_bytes("*=$0800\nSCREEN = $0400\nSTA SCREEN\n")
        .unwrap();
    let mut direct = Assembler6502::new();
    let b = direct.assemble_bytes("*=$0800\nSTA $0400\n").unwrap();
    assert_eq!(a, b);
    assert_eq!(a, vec![0x8D, 0x00, 0x04]);
    assert_eq!(with_constant.lookup("SCREEN"), Some(0x0400));
}

#[test]
fn test_assembly_is_deterministic() {
    let src = "*=$0800\nstart:\nLDA #$01\nBNE start\n.byte $10,$20\n";
    let mut assembler = Assembler6502::new();
    let first = assembler.assemble_bytes(src).unwrap();
    assembler.reset();
    assembler.set_origin(0x0080);
    let second = assembler.assemble_bytes(src).unwrap();
    assert_eq!(first, second);
}

#[test]
fn test_unterminated_string_is_a_syntax_error() {
    let mut assembler = Assembler6502::new();
    match assembler.assemble_bytes("*=$0800\n.string \"oops\n") {
        Err(AsmError::LineError { line, cause, .. }) => {
            assert_eq!(line, 2);
            match *cause {
                AsmError::MissingQuotes(d) => assert_eq!(d, ".string"),
                other => panic!("expected missing quotes, got {:?}", other),
            }
        }
        other => panic!("expected a line error, got {:?}", other),
    }
}

#[test]
fn test_unterminated_incbin_is_a_syntax_error() {
    let mut assembler = Assembler6502::new();
    match assembler.assemble_bytes(".incbin \"file.bin\n") {
        Err(AsmError::LineError { line, cause, .. }) => {
            assert_eq!(line, 1);
            match *cause {
                AsmError::MissingQuotes(d) => assert_eq!(d, ".incbin"),
                other => panic!("expected missing quotes, got {:?}", other),
            }
        }
        other => panic!("expected a line error, got {:?}", other),
    }
}

#[test]
fn test_data_directives() {
    let mut assembler = Assembler6502::new();
    let bytes = assembler
        .assemble_bytes("*=$0800\n.byte $01,$02,$03\n.word $1234,$ABCD\nDCB $0A $0B\n")
        .unwrap();
    assert_eq!(bytes, vec![0x01, 0x02, 0x03, 0x34, 0x12, 0xCD, 0xAB, 0x0A, 0x0B]);
}

#[test]
fn test_string_directive_emits_text_bytes() {
    let mut assembler = Assembler6502::new();
    let bytes = assembler.assemble_bytes("*=$0800\n.string \"AB c\"\n").unwrap();
    assert_eq!(bytes, vec![0x41, 0x42, 0x20, 0x63]);
}

#[test]
fn test_label_with_data_on_one_line() {
    let mut assembler = Assembler6502::new();
    let bytes = assembler
        .assemble_bytes("*=$0800\ntable: DCB $11 $22\nLDA table\n")
        .unwrap();
    assert_eq!(bytes, vec![0x11, 0x22, 0xAD, 0x00, 0x08]);
    assert_eq!(assembler.lookup("table"), Some(0x0800));
}

#[test]
fn test_registered_binary_is_included() {
    let mut assembler = Assembler6502::new();
    assembler.add_binary("data.bin".to_string(), vec![0xDE, 0xAD, 0xBE]);
    let bytes = assembler
        .assemble_bytes("*=$0800\n.incbin \"data.bin\"\nNOP\n")
        .unwrap();
    assert_eq!(bytes, vec![0xDE, 0xAD, 0xBE, 0xEA]);
}

#[test]
fn test_missing_binary_is_an_error() {
    let mut assembler = Assembler6502::new();
    match assembler.assemble_bytes("*=$0800\n.incbin \"nowhere.bin\"\n") {
        Err(AsmError::IncludeNotFound(name)) => assert_eq!(name, "nowhere.bin"),
        other => panic!("expected a missing-include error, got {:?}", other),
    }
}

#[test]
fn test_unknown_mnemonic() {
    let mut assembler = Assembler6502::new();
    match assembler.assemble_bytes("*=$0800\nXYZ\n") {
        Err(AsmError::InstructionError { cause, .. }) => match *cause {
            AsmError::UnknownMnemonic(m) => assert_eq!(m, "XYZ"),
            other => panic!("expected unknown mnemonic, got {:?}", other),
        },
        other => panic!("expected an instruction error, got {:?}", other),
    }
}

#[test]
fn test_immediate_too_large() {
    let mut assembler = Assembler6502::new();
    match assembler.assemble_bytes("*=$0800\nLDA #$100\n") {
        Err(AsmError::InstructionError { cause, .. }) => match *cause {
            AsmError::ImmediateTooLarge(v) => assert_eq!(v, 0x100),
            other => panic!("expected immediate too large, got {:?}", other),
        },
        other => panic!("expected an instruction error, got {:?}", other),
    }
}

#[test]
fn test_unsupported_mode() {
    // STX has no absolute,X form
    let mut assembler = Assembler6502::new();
    match assembler.assemble_bytes("*=$0800\nSTX $0200,X\n") {
        Err(AsmError::InstructionError { cause, .. }) => match *cause {
            AsmError::UnsupportedMode(m) => assert_eq!(m, "STX"),
            other => panic!("expected unsupported mode, got {:?}", other),
        },
        other => panic!("expected an instruction error, got {:?}", other),
    }
}

#[test]
fn test_invalid_indirect_mode() {
    let mut assembler = Assembler6502::new();
    match assembler.assemble_bytes("*=$0800\nLDA ($10,Y)\n") {
        Err(AsmError::InstructionError { cause, .. }) => match *cause {
            AsmError::InvalidIndirect => {}
            other => panic!("expected invalid indirect, got {:?}", other),
        },
        other => panic!("expected an instruction error, got {:?}", other),
    }
}

#[test]
fn test_undefined_label_in_operand() {
    let mut assembler = Assembler6502::new();
    match assembler.assemble_bytes("*=$0800\nLDA missing\n") {
        Err(AsmError::InstructionError { cause, .. }) => match *cause {
            AsmError::UndefinedLabel(name) => assert_eq!(name, "missing"),
            other => panic!("expected undefined label, got {:?}", other),
        },
        other => panic!("expected an instruction error, got {:?}", other),
    }
}

#[test]
fn test_constant_forward_reference_fails() {
    let mut assembler = Assembler6502::new();
    match assembler.assemble_bytes("*=$0800\nK = later\nlater:\nNOP\n") {
        Err(AsmError::ConstantError { name, cause }) => {
            assert_eq!(name, "K");
            match *cause {
                AsmError::UndefinedLabel(l) => assert_eq!(l, "later"),
                other => panic!("expected undefined label, got {:?}", other),
            }
        }
        other => panic!("expected a constant error, got {:?}", other),
    }
}

#[test]
fn test_branch_out_of_range_in_final_pass() {
    // seed the symbol table through a successful assembly, then resolve
    // a branch against a target far out of reach
    let mut assembler = Assembler6502::new();
    assembler.assemble_bytes("*=$0800\nfar:\nNOP\n").unwrap();
    match assembler.assemble_instruction("BEQ", Some("far"), 0x2000) {
        Err(AsmError::BranchOutOfRange { offset, target, current }) => {
            assert_eq!(target, 0x0800);
            assert_eq!(current, 0x2000);
            assert_eq!(offset, 0x0800 - (0x2000 + 2));
        }
        other => panic!("expected branch out of range, got {:?}", other),
    }
}

#[test]
fn test_indirect_and_indexed_modes() {
    let mut assembler = Assembler6502::new();
    let bytes = assembler
        .assemble_bytes("*=$0800\nLDA ($10),Y\nLDA ($10,X)\nLDA $10,X\nLDA $0300,Y\nSTA $0200,X\n")
        .unwrap();
    assert_eq!(
        bytes,
        vec![0xB1, 0x10, 0xA1, 0x10, 0xB5, 0x10, 0xB9, 0x00, 0x03, 0x9D, 0x00, 0x02]
    );
}

#[test]
fn test_jumps_and_subroutines() {
    let mut assembler = Assembler6502::new();
    let bytes = assembler
        .assemble_bytes("*=$0800\nJMP $1234\nJMP ($00F0)\nJSR $0800\nRTS\n")
        .unwrap();
    assert_eq!(
        bytes,
        vec![0x4C, 0x34, 0x12, 0x6C, 0xF0, 0x00, 0x20, 0x00, 0x08, 0x60]
    );
}

#[test]
fn test_current_address_marker_in_operand() {
    let mut assembler = Assembler6502::new();
    // JMP * jumps to itself
    let bytes = assembler.assemble_bytes("*=$0800\nJMP *\n").unwrap();
    assert_eq!(bytes, vec![0x4C, 0x00, 0x08]);
}

#[test]
fn test_comments_and_blank_lines() {
    let mut assembler = Assembler6502::new();
    let bytes = assembler
        .assemble_bytes("; leading comment\n\n*=$0800\nNOP ; trailing comment\n\n")
        .unwrap();
    assert_eq!(bytes, vec![0xEA]);
}

#[test]
fn test_assemble_with_symbols_returns_the_table() {
    let mut assembler = Assembler6502::new();
    let (bytes, labels) = assembler
        .assemble_with_symbols("*=$0800\nentry:\nNOP\n")
        .unwrap();
    assert_eq!(bytes, vec![0xEA]);
    assert!(labels.iter().any(|(n, v)| n == "entry" && *v == 0x0800));
}

#[test]
fn test_assemble_with_addr_map() {
    let mut assembler = Assembler6502::new();
    let (bytes, map) = assembler
        .assemble_with_addr_map("*=$0800\nLDA #$42\nSTA $0200\n")
        .unwrap();
    assert_eq!(bytes, vec![0xA9, 0x42, 0x8D, 0x00, 0x02]);
    let expected: Vec<(usize, u16)> = vec![
        (0, 0x0800),
        (1, 0x0801),
        (2, 0x0802),
        (3, 0x0803),
        (4, 0x0804),
    ];
    assert_eq!(map, expected);
}

#[test]
fn test_assemble_into_reuses_buffer() {
    let mut assembler = Assembler6502::new();
    let mut out = vec![0xFF, 0xFF];
    assembler.assemble_into("*=$0800\nNOP\n", &mut out).unwrap();
    assert_eq!(out, vec![0xEA]);
    assert!(assembler.assemble_into("*=$0800\n???\n", &mut out).is_err());
    assert!(out.is_empty());
}

#[test]
fn test_origin_configuration() {
    let mut assembler = Assembler6502::new();
    assert_eq!(assembler.origin(), 0x0080);
    assembler.set_origin(0x1234);
    assert_eq!(assembler.origin(), 0x1234);
    assembler.reset();
    assert_eq!(assembler.origin(), 0x0080);
}

#[test]
fn test_parse_source_items() {
    let assembler = Assembler6502::new();
    let items = assembler
        .parse_source("*=$0800\nstart:\nLDA #$01\n.byte $02\n")
        .unwrap();
    assert_eq!(items.len(), 4);
    assert_eq!(items[1], Item::Label("start".to_string()));
    match &items[2] {
        Item::Instruction { mnemonic, operand } => {
            assert_eq!(mnemonic, "LDA");
            assert_eq!(operand.as_deref(), Some("#$01"));
        }
        other => panic!("expected an instruction, got {:?}", other),
    }
}

#[test]
fn test_parse_line_forms() {
    match asm6502::lexer::parse_line("start:").unwrap() {
        Some(Either::One(Item::Label(name))) => assert_eq!(name, "start"),
        other => panic!("expected a label, got {:?}", other),
    }
    match asm6502::lexer::parse_line("table: DCB $01 $02").unwrap() {
        Some(Either::Many(items)) => {
            assert_eq!(items.len(), 2);
            assert_eq!(items[0], Item::Label("table".to_string()));
        }
        other => panic!("expected two items, got {:?}", other),
    }
    assert!(asm6502::lexer::parse_line("   ; only a comment").unwrap().is_none());
}

#[test]
fn test_syntax_error_names_the_line() {
    let mut assembler = Assembler6502::new();
    match assembler.assemble_bytes("*=$0800\nNOP\n.byte 12$34\n") {
        Err(AsmError::LineError { line, text, .. }) => {
            assert_eq!(line, 3);
            assert_eq!(text, ".byte 12$34");
        }
        other => panic!("expected a line error, got {:?}", other),
    }
}

#[test]
fn test_expression_operand_with_spaces() {
    let mut assembler = Assembler6502::new();
    let bytes = assembler.assemble_bytes("*=$0800\nLDA #$02+1\n").unwrap();
    assert_eq!(bytes, vec![0xA9, 0x03]);
}
