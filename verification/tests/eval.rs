//! Expression evaluation.

use asm6502::{AsmError, Expr, ExpressionEvaluator, ExpressionParser, SymbolTable};

#[test]
fn test_evaluate_number() {
    let symbols = SymbolTable::new();
    let evaluator = ExpressionEvaluator::new(&symbols, 0x1000);

    assert_eq!(evaluator.evaluate(&Expr::Number(42)).unwrap(), 42);
    assert_eq!(evaluator.evaluate(&Expr::Number(0x10000)).unwrap(), 0x10000);
}

#[test]
fn test_evaluate_current_address() {
    let symbols = SymbolTable::new();
    let evaluator = ExpressionEvaluator::new(&symbols, 0x1000);

    assert_eq!(evaluator.evaluate(&Expr::CurrentAddress).unwrap(), 0x1000);
}

#[test]
fn test_evaluate_label() {
    let mut symbols = SymbolTable::new();
    symbols.insert("LABEL".to_string(), 0x2000);
    let evaluator = ExpressionEvaluator::new(&symbols, 0x1000);

    assert_eq!(evaluator.evaluate(&Expr::Label("LABEL".to_string())).unwrap(), 0x2000);
}

#[test]
fn test_evaluate_add() {
    let mut symbols = SymbolTable::new();
    symbols.insert("LABEL".to_string(), 0x2000);
    let evaluator = ExpressionEvaluator::new(&symbols, 0x1000);

    let expr = Expr::Add(
        Box::new(Expr::Label("LABEL".to_string())),
        Box::new(Expr::Number(1)),
    );

    assert_eq!(evaluator.evaluate(&expr).unwrap(), 0x2001);
}

#[test]
fn test_evaluate_current_plus_offset() {
    let symbols = SymbolTable::new();
    let evaluator = ExpressionEvaluator::new(&symbols, 0x1000);

    let expr = Expr::Add(
        Box::new(Expr::CurrentAddress),
        Box::new(Expr::Number(2)),
    );

    assert_eq!(evaluator.evaluate(&expr).unwrap(), 0x1002);
}

#[test]
fn test_undefined_label() {
    let symbols = SymbolTable::new();
    let evaluator = ExpressionEvaluator::new(&symbols, 0x1000);

    let expr = Expr::Label("UNDEFINED".to_string());
    assert!(evaluator.evaluate(&expr).is_err());
}

#[test]
fn test_u32_overflow() {
    let symbols = SymbolTable::new();
    let evaluator = ExpressionEvaluator::new(&symbols, 0x1000);

    // $10000 - $100 = $FF00
    let expr = Expr::Sub(
        Box::new(Expr::Number(0x10000)),
        Box::new(Expr::Number(0x100)),
    );

    assert_eq!(evaluator.evaluate(&expr).unwrap(), 0xFF00);
    assert_eq!(evaluator.evaluate_u16(&expr).unwrap(), 0xFF00);
}

#[test]
fn test_low_high_byte() {
    let symbols = SymbolTable::new();
    let evaluator = ExpressionEvaluator::new(&symbols, 0x1000);

    let expr_low = Expr::LowByte(Box::new(Expr::Number(0x1234)));
    assert_eq!(evaluator.evaluate(&expr_low).unwrap(), 0x34);

    let expr_high = Expr::HighByte(Box::new(Expr::Number(0x1234)));
    assert_eq!(evaluator.evaluate(&expr_high).unwrap(), 0x12);
}

#[test]
fn test_arithmetic_formulas() {
    let symbols = SymbolTable::new();
    let evaluator = ExpressionEvaluator::new(&symbols, 0);

    let product_sum = ExpressionParser::parse("10*2+5").unwrap();
    assert_eq!(evaluator.evaluate(&product_sum).unwrap(), 25);

    let quotient_diff = ExpressionParser::parse("100/5-4").unwrap();
    assert_eq!(evaluator.evaluate(&quotient_diff).unwrap(), 16);
}

#[test]
fn test_division_by_zero_fails() {
    let symbols = SymbolTable::new();
    let evaluator = ExpressionEvaluator::new(&symbols, 0);

    let expr = ExpressionParser::parse("10/0").unwrap();
    match evaluator.evaluate(&expr) {
        Err(AsmError::DivisionByZero) => {}
        other => panic!("expected a division-by-zero error, got {:?}", other),
    }
}

#[test]
fn test_wrapping_arithmetic() {
    let symbols = SymbolTable::new();
    let evaluator = ExpressionEvaluator::new(&symbols, 0);

    // 0 - 1 wraps in 32 bits
    let expr = Expr::Sub(Box::new(Expr::Number(0)), Box::new(Expr::Number(1)));
    assert_eq!(evaluator.evaluate(&expr).unwrap(), u32::MAX);
    // and truncates to 16 bits at the point of use
    assert_eq!(evaluator.evaluate_u16(&expr).unwrap(), 0xFFFF);
}

#[test]
fn test_try_evaluate() {
    let symbols = SymbolTable::new();
    let evaluator = ExpressionEvaluator::new(&symbols, 0);

    assert_eq!(evaluator.try_evaluate(&Expr::Number(7)), Some(7));
    assert_eq!(evaluator.try_evaluate(&Expr::Label("missing".to_string())), None);
}

#[test]
fn test_symbol_table_shadowing() {
    let mut symbols = SymbolTable::new();
    symbols.insert("A".to_string(), 1);
    symbols.insert("A".to_string(), 2);
    assert_eq!(symbols.get("A"), Some(2));
    assert_eq!(symbols.get("B"), None);
    symbols.mark_zp("A".to_string());
    assert!(symbols.is_zp("A"));
    assert!(!symbols.is_zp("B"));
    symbols.clear();
    assert_eq!(symbols.get("A"), None);
    assert!(!symbols.is_zp("A"));
}
