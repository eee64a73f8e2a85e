//! Expression parsing.

use asm6502::{AsmError, Expr, ExpressionParser};

#[test]
fn test_simple_number() {
    assert_eq!(ExpressionParser::parse("$FF").unwrap(), Expr::Number(255));
    assert_eq!(ExpressionParser::parse("255").unwrap(), Expr::Number(255));
    assert_eq!(ExpressionParser::parse("%11111111").unwrap(), Expr::Number(255));
}

#[test]
fn test_simple_label() {
    assert_eq!(ExpressionParser::parse("LABEL").unwrap(), Expr::Label("LABEL".to_string()));
    assert_eq!(ExpressionParser::parse("my_label").unwrap(), Expr::Label("my_label".to_string()));
}

#[test]
fn test_current_address() {
    assert_eq!(ExpressionParser::parse("*").unwrap(), Expr::CurrentAddress);
}

#[test]
fn test_addition() {
    let expr = ExpressionParser::parse("LABEL+1").unwrap();
    match expr {
        Expr::Add(left, right) => {
            assert_eq!(*left, Expr::Label("LABEL".to_string()));
            assert_eq!(*right, Expr::Number(1));
        }
        _ => panic!("Expected Add expression"),
    }
}

#[test]
fn test_subtraction() {
    let expr = ExpressionParser::parse("*-2").unwrap();
    match expr {
        Expr::Sub(left, right) => {
            assert_eq!(*left, Expr::CurrentAddress);
            assert_eq!(*right, Expr::Number(2));
        }
        _ => panic!("Expected Sub expression"),
    }
}

#[test]
fn test_complex_expression() {
    let expr = ExpressionParser::parse("LABEL+$10-2").unwrap();
    match expr {
        Expr::Sub(left, right) => {
            match *left {
                Expr::Add(l, r) => {
                    assert_eq!(*l, Expr::Label("LABEL".to_string()));
                    assert_eq!(*r, Expr::Number(0x10));
                }
                _ => panic!("Expected Add in left"),
            }
            assert_eq!(*right, Expr::Number(2));
        }
        _ => panic!("Expected Sub expression"),
    }
}

#[test]
fn test_multiplication() {
    let expr = ExpressionParser::parse("10*2").unwrap();
    match expr {
        Expr::Mul(left, right) => {
            assert_eq!(*left, Expr::Number(10));
            assert_eq!(*right, Expr::Number(2));
        }
        _ => panic!("Expected Mul expression"),
    }
}

#[test]
fn test_immediate_marker() {
    let expr = ExpressionParser::parse("#$42").unwrap();
    match expr {
        Expr::Immediate(inner) => assert_eq!(*inner, Expr::Number(0x42)),
        _ => panic!("Expected Immediate expression"),
    }
}

#[test]
fn test_parentheses_group() {
    // the split happens at the rightmost top-level operator, so the
    // parenthesized sum stays together
    let expr = ExpressionParser::parse("($10+$20)*2").unwrap();
    match expr {
        Expr::Mul(left, right) => {
            match *left {
                Expr::Add(l, r) => {
                    assert_eq!(*l, Expr::Number(0x10));
                    assert_eq!(*r, Expr::Number(0x20));
                }
                _ => panic!("Expected Add inside parentheses"),
            }
            assert_eq!(*right, Expr::Number(2));
        }
        _ => panic!("Expected Mul expression"),
    }
}

#[test]
fn test_division_parses() {
    let expr = ExpressionParser::parse("100/5").unwrap();
    match expr {
        Expr::Div(left, right) => {
            assert_eq!(*left, Expr::Number(100));
            assert_eq!(*right, Expr::Number(5));
        }
        _ => panic!("Expected Div expression"),
    }
}

#[test]
fn test_invalid_expression_is_reported() {
    match ExpressionParser::parse("12$34") {
        Err(AsmError::InvalidExpression(_)) => {}
        other => panic!("expected an invalid-expression error, got {:?}", other),
    }
    assert!(ExpressionParser::parse("").is_err());
    assert!(ExpressionParser::parse("(unclosed").is_err());
}
