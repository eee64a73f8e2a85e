//! Operand expressions: parsing text into an expression tree.
//!
//! The grammar has additive operators over multiplicative operators over
//! primaries (numbers, labels, the current-address marker `*`, and
//! parenthesized expressions).  Strings are split at the rightmost
//! operator of each precedence level that sits outside parentheses,
//! which yields left associativity without a token stream.  A `*` is
//! the current-address marker rather than multiplication when it starts
//! the text or follows another operator, `(`, or `,`.

use vstd::prelude::*;
use vstd::string::StrSliceExecFns;
use crate::error::AsmError;
use crate::number::{NumberParser, spec_parse_number};
use crate::text;

verus! {

/// An operand expression tree.
#[derive(Debug, PartialEq)]
pub enum Expr {
    /// A numeric literal; 32 bits wide so intermediate values above
    /// `$FFFF` survive into arithmetic.
    Number(u32),
    /// A reference to a label or constant.
    Label(String),
    /// The `*` marker: the address at which the current item sits.
    CurrentAddress,
    /// A `#`-prefixed operand; numerically transparent, it only tells
    /// the instruction resolver to pick immediate mode.
    Immediate(Box<Expr>),
    /// The low byte of the inner value.
    LowByte(Box<Expr>),
    /// The high byte of the inner value.
    HighByte(Box<Expr>),
    Add(Box<Expr>, Box<Expr>),
    Sub(Box<Expr>, Box<Expr>),
    Mul(Box<Expr>, Box<Expr>),
    Div(Box<Expr>, Box<Expr>),
}

/// The mathematical shape of an [`Expr`]: identical structure, with
/// label names as character sequences.
pub enum SpecExpr {
    Num(u32),
    Lbl(Seq<char>),
    Cur,
    Imm(Box<SpecExpr>),
    Low(Box<SpecExpr>),
    High(Box<SpecExpr>),
    Add(Box<SpecExpr>, Box<SpecExpr>),
    Sub(Box<SpecExpr>, Box<SpecExpr>),
    Mul(Box<SpecExpr>, Box<SpecExpr>),
    Div(Box<SpecExpr>, Box<SpecExpr>),
}

/// The view of an expression tree.
pub open spec fn expr_view(e: Expr) -> SpecExpr
    decreases e,
{
    match e {
        Expr::Number(n) => SpecExpr::Num(n),
        Expr::Label(name) => SpecExpr::Lbl(name@),
        Expr::CurrentAddress => SpecExpr::Cur,
        Expr::Immediate(inner) => SpecExpr::Imm(Box::new(expr_view(*inner))),
        Expr::LowByte(inner) => SpecExpr::Low(Box::new(expr_view(*inner))),
        Expr::HighByte(inner) => SpecExpr::High(Box::new(expr_view(*inner))),
        Expr::Add(l, r) => SpecExpr::Add(Box::new(expr_view(*l)), Box::new(expr_view(*r))),
        Expr::Sub(l, r) => SpecExpr::Sub(Box::new(expr_view(*l)), Box::new(expr_view(*r))),
        Expr::Mul(l, r) => SpecExpr::Mul(Box::new(expr_view(*l)), Box::new(expr_view(*r))),
        Expr::Div(l, r) => SpecExpr::Div(Box::new(expr_view(*l)), Box::new(expr_view(*r))),
    }
}

impl View for Expr {
    type V = SpecExpr;

    open spec fn view(&self) -> SpecExpr {
        expr_view(*self)
    }
}

impl Clone for Expr {
    /// An exact structural copy.
    fn clone(&self) -> (r: Self)
        ensures
            r == *self,
        decreases *self,
    {
        match self {
            Expr::Number(n) => Expr::Number(*n),
            Expr::Label(name) => Expr::Label(name.clone()),
            Expr::CurrentAddress => Expr::CurrentAddress,
            Expr::Immediate(inner) => Expr::Immediate(Box::new((**inner).clone())),
            Expr::LowByte(inner) => Expr::LowByte(Box::new((**inner).clone())),
            Expr::HighByte(inner) => Expr::HighByte(Box::new((**inner).clone())),
            Expr::Add(l, r) => Expr::Add(Box::new((**l).clone()), Box::new((**r).clone())),
            Expr::Sub(l, r) => Expr::Sub(Box::new((**l).clone()), Box::new((**r).clone())),
            Expr::Mul(l, r) => Expr::Mul(Box::new((**l).clone()), Box::new((**r).clone())),
            Expr::Div(l, r) => Expr::Div(Box::new((**l).clone()), Box::new((**r).clone())),
        }
    }
}

// ===== Label names =====

/// A label starts with a letter or underscore and continues with
/// letters, digits, or underscores.
pub open spec fn spec_is_valid_label(s: Seq<char>) -> bool {
    s.len() > 0 && (text::is_alpha(s[0]) || s[0] == '_') && forall|i: int|
        1 <= i < s.len() ==> text::is_label_rest(s[i])
}

fn is_valid_label(s: &str) -> (r: bool)
    ensures
        r == spec_is_valid_label(s@),
{
    let len = s.unicode_len();
    if len == 0 {
        return false;
    }
    let first = s.get_char(0);
    if !(text::alpha(first) || first == '_') {
        return false;
    }
    let mut i: usize = 1;
    while i < len
        invariant
            len == s@.len(),
            1 <= i <= len,
            forall|j: int| 1 <= j < i ==> text::is_label_rest(s@[j]),
        decreases len - i,
    {
        if !text::label_rest(s.get_char(i)) {
            return false;
        }
        i += 1;
    }
    true
}

// ===== Operator scanning =====

/// Characters after which a `*` marks the current address rather than
/// multiplication.
pub open spec fn is_addr_context(c: char) -> bool {
    c == '+' || c == '-' || c == '*' || c == '/' || c == '(' || c == ','
}

#[verifier::when_used_as_spec(is_addr_context)]
fn addr_context(c: char) -> (r: bool)
    ensures
        r == is_addr_context(c),
{
    c == '+' || c == '-' || c == '*' || c == '/' || c == '(' || c == ','
}

/// Scanning right to left from position `i` with the given parenthesis
/// depth: the position of the rightmost `+` or `-` outside parentheses,
/// or `-1`.
pub open spec fn addsub_pos(s: Seq<char>, i: int, depth: int) -> int
    decreases i + 1,
{
    if i < 0 {
        -1
    } else {
        let c = s[i];
        if c == ')' {
            addsub_pos(s, i - 1, depth + 1)
        } else if c == '(' {
            addsub_pos(s, i - 1, depth - 1)
        } else if (c == '+' || c == '-') && depth == 0 {
            i
        } else {
            addsub_pos(s, i - 1, depth)
        }
    }
}

/// As [`addsub_pos`], for the rightmost `*` or `/` outside parentheses;
/// a `*` at the start or after an operator is the current-address
/// marker and is passed over.
pub open spec fn muldiv_pos(s: Seq<char>, i: int, depth: int) -> int
    decreases i + 1,
{
    if i < 0 {
        -1
    } else {
        let c = s[i];
        if c == ')' {
            muldiv_pos(s, i - 1, depth + 1)
        } else if c == '(' {
            muldiv_pos(s, i - 1, depth - 1)
        } else if (c == '*' || c == '/') && depth == 0 {
            if c == '*' && (i == 0 || is_addr_context(s[i - 1])) {
                muldiv_pos(s, i - 1, depth)
            } else {
                i
            }
        } else {
            muldiv_pos(s, i - 1, depth)
        }
    }
}

pub proof fn lemma_addsub_pos(s: Seq<char>, i: int, depth: int)
    requires
        -1 <= i < s.len(),
    ensures
        -1 <= addsub_pos(s, i, depth) <= i,
        addsub_pos(s, i, depth) >= 0 ==> (s[addsub_pos(s, i, depth)] == '+' || s[addsub_pos(
            s,
            i,
            depth,
        )] == '-'),
    decreases i + 1,
{
    if i >= 0 {
        let c = s[i];
        if c == ')' {
            lemma_addsub_pos(s, i - 1, depth + 1);
        } else if c == '(' {
            lemma_addsub_pos(s, i - 1, depth - 1);
        } else if (c == '+' || c == '-') && depth == 0 {
        } else {
            lemma_addsub_pos(s, i - 1, depth);
        }
    }
}

pub proof fn lemma_muldiv_pos(s: Seq<char>, i: int, depth: int)
    requires
        -1 <= i < s.len(),
    ensures
        -1 <= muldiv_pos(s, i, depth) <= i,
        muldiv_pos(s, i, depth) >= 0 ==> (s[muldiv_pos(s, i, depth)] == '*' || s[muldiv_pos(
            s,
            i,
            depth,
        )] == '/'),
    decreases i + 1,
{
    if i >= 0 {
        let c = s[i];
        if c == ')' {
            lemma_muldiv_pos(s, i - 1, depth + 1);
        } else if c == '(' {
            lemma_muldiv_pos(s, i - 1, depth - 1);
        } else if (c == '*' || c == '/') && depth == 0 {
            if c == '*' && (i == 0 || is_addr_context(s[i - 1])) {
                lemma_muldiv_pos(s, i - 1, depth);
            }
        } else {
            lemma_muldiv_pos(s, i - 1, depth);
        }
    }
}

/// Find the rightmost top-level `+` or `-`.
fn rightmost_addsub(s: &str) -> (r: Option<usize>)
    ensures
        match r {
            Some(i) => addsub_pos(s@, s@.len() - 1, 0) == i as int && i < s@.len(),
            None => addsub_pos(s@, s@.len() - 1, 0) == -1,
        },
{
    let len = s.unicode_len();
    if len == 0 {
        return None;
    }
    let mut i: usize = len - 1;
    let mut depth: i128 = 0;
    loop
        invariant
            len == s@.len(),
            0 < len,
            i < len,
            -(len - 1 - i as int) <= depth as int <= len - 1 - i as int,
            addsub_pos(s@, s@.len() - 1, 0) == addsub_pos(s@, i as int, depth as int),
        decreases i,
    {
        let c = s.get_char(i);
        let mut next_depth = depth;
        if c == ')' {
            next_depth = depth + 1;
        } else if c == '(' {
            next_depth = depth - 1;
        } else if (c == '+' || c == '-') && depth == 0 {
            return Some(i);
        }
        assert(addsub_pos(s@, i as int, depth as int) == addsub_pos(
            s@,
            i as int - 1,
            next_depth as int,
        ));
        if i == 0 {
            return None;
        }
        depth = next_depth;
        i -= 1;
    }
}

/// Find the rightmost top-level `*` or `/` that is multiplication or
/// division.
fn rightmost_muldiv(s: &str) -> (r: Option<usize>)
    ensures
        match r {
            Some(i) => muldiv_pos(s@, s@.len() - 1, 0) == i as int && i < s@.len(),
            None => muldiv_pos(s@, s@.len() - 1, 0) == -1,
        },
{
    let len = s.unicode_len();
    if len == 0 {
        return None;
    }
    let mut i: usize = len - 1;
    let mut depth: i128 = 0;
    loop
        invariant
            len == s@.len(),
            0 < len,
            i < len,
            -(len - 1 - i as int) <= depth as int <= len - 1 - i as int,
            muldiv_pos(s@, s@.len() - 1, 0) == muldiv_pos(s@, i as int, depth as int),
        decreases i,
    {
        let c = s.get_char(i);
        let mut next_depth = depth;
        if c == ')' {
            next_depth = depth + 1;
        } else if c == '(' {
            next_depth = depth - 1;
        } else if (c == '*' || c == '/') && depth == 0 {
            let cur_marker = c == '*' && (i == 0 || addr_context(s.get_char(i - 1)));
            if !cur_marker {
                return Some(i);
            }
        }
        assert(muldiv_pos(s@, i as int, depth as int) == muldiv_pos(
            s@,
            i as int - 1,
            next_depth as int,
        ));
        if i == 0 {
            return None;
        }
        depth = next_depth;
        i -= 1;
    }
}

// ===== The grammar, as spec functions =====

/// Parse an operand string: strip a leading `#` into an immediate
/// marker, recognize a sole `*` as the current address, hand strings
/// with operator characters to the precedence levels, and read
/// everything else as a number or a label.
pub open spec fn spec_parse_expr(s: Seq<char>) -> Option<SpecExpr>
    decreases s.len(), 3int,
    via spec_parse_expr_dec
{
    let t = text::spec_trim(s);
    if t.len() >= 1 && t[0] == '#' {
        match spec_parse_expr(t.skip(1)) {
            Some(inner) => Some(SpecExpr::Imm(Box::new(inner))),
            None => None,
        }
    } else if t.len() == 1 && t[0] == '*' {
        Some(SpecExpr::Cur)
    } else if text::spec_contains_char(t, '+') || text::spec_contains_char(t, '-')
        || text::spec_contains_char(t, '*') || text::spec_contains_char(t, '/')
        || text::spec_contains_char(t, '(') || text::spec_contains_char(t, ')') {
        spec_parse_additive(t)
    } else {
        match spec_parse_number(t) {
            Some(n) => Some(SpecExpr::Num(n)),
            None => if spec_is_valid_label(t) {
                Some(SpecExpr::Lbl(t))
            } else {
                None
            },
        }
    }
}

#[via_fn]
proof fn spec_parse_expr_dec(s: Seq<char>) {
    text::lemma_trim_len(s);
}

/// Split at the rightmost top-level `+` or `-`; the left half is again
/// additive, the right half multiplicative.
pub open spec fn spec_parse_additive(s: Seq<char>) -> Option<SpecExpr>
    decreases s.len(), 2int,
    via spec_parse_additive_dec
{
    let pos = addsub_pos(s, s.len() - 1, 0);
    if pos >= 0 {
        match spec_parse_additive(s.take(pos)) {
            Some(l) => match spec_parse_multiplicative(s.skip(pos + 1)) {
                Some(r) => if s[pos] == '+' {
                    Some(SpecExpr::Add(Box::new(l), Box::new(r)))
                } else {
                    Some(SpecExpr::Sub(Box::new(l), Box::new(r)))
                },
                None => None,
            },
            None => None,
        }
    } else {
        spec_parse_multiplicative(s)
    }
}

#[via_fn]
proof fn spec_parse_additive_dec(s: Seq<char>) {
    lemma_addsub_pos(s, s.len() - 1, 0);
}

/// Split at the rightmost top-level `*` or `/`; both halves are
/// primaries.
pub open spec fn spec_parse_multiplicative(s: Seq<char>) -> Option<SpecExpr>
    decreases s.len(), 1int,
    via spec_parse_multiplicative_dec
{
    let pos = muldiv_pos(s, s.len() - 1, 0);
    if pos >= 0 {
        match spec_parse_primary(s.take(pos)) {
            Some(l) => match spec_parse_primary(s.skip(pos + 1)) {
                Some(r) => if s[pos] == '*' {
                    Some(SpecExpr::Mul(Box::new(l), Box::new(r)))
                } else {
                    Some(SpecExpr::Div(Box::new(l), Box::new(r)))
                },
                None => None,
            },
            None => None,
        }
    } else {
        spec_parse_primary(s)
    }
}

#[via_fn]
proof fn spec_parse_multiplicative_dec(s: Seq<char>) {
    lemma_muldiv_pos(s, s.len() - 1, 0);
}

/// A primary: a parenthesized expression, the current-address marker, a
/// number, or a label.
pub open spec fn spec_parse_primary(s: Seq<char>) -> Option<SpecExpr>
    decreases s.len(), 0int,
    via spec_parse_primary_dec
{
    let t = text::spec_trim(s);
    if t.len() >= 2 && t[0] == '(' && t.last() == ')' {
        spec_parse_expr(t.subrange(1, t.len() - 1))
    } else if t.len() == 1 && t[0] == '*' {
        Some(SpecExpr::Cur)
    } else {
        match spec_parse_number(t) {
            Some(n) => Some(SpecExpr::Num(n)),
            None => if spec_is_valid_label(t) {
                Some(SpecExpr::Lbl(t))
            } else {
                None
            },
        }
    }
}

#[via_fn]
proof fn spec_parse_primary_dec(s: Seq<char>) {
    text::lemma_trim_len(s);
}

// ===== The parser =====

/// Expression parsing.
pub struct ExpressionParser;

impl ExpressionParser {
    /// Parse an operand string into an expression tree.
    pub fn parse(s: &str) -> (r: Result<Expr, AsmError>)
        ensures
            match r {
                Ok(e) => spec_parse_expr(s@) == Some(e@),
                Err(e) => spec_parse_expr(s@) is None && (e matches AsmError::InvalidExpression(
                    _,
                )),
            },
        decreases s@.len(), 3int,
    {
        let t = text::trim(s);
        let len = t.unicode_len();
        if len >= 1 && t.get_char(0) == '#' {
            let rest = t.substring_char(1, len);
            assert(rest@ == text::spec_trim(s@).skip(1));
            return match Self::parse(rest) {
                Ok(inner) => Ok(Expr::Immediate(Box::new(inner))),
                Err(e) => Err(e),
            };
        }
        if len == 1 && t.get_char(0) == '*' {
            return Ok(Expr::CurrentAddress);
        }
        if text::contains_char(t, '+') || text::contains_char(t, '-') || text::contains_char(
            t,
            '*',
        ) || text::contains_char(t, '/') || text::contains_char(t, '(') || text::contains_char(
            t,
            ')',
        ) {
            return Self::parse_additive(t);
        }
        match NumberParser::parse(t) {
            Ok(n) => Ok(Expr::Number(n)),
            Err(_) => {
                if is_valid_label(t) {
                    Ok(Expr::Label(text::own(t)))
                } else {
                    Err(AsmError::InvalidExpression(text::own(t)))
                }
            },
        }
    }

    /// Parse additions and subtractions, the lowest precedence level.
    fn parse_additive(s: &str) -> (r: Result<Expr, AsmError>)
        ensures
            match r {
                Ok(e) => spec_parse_additive(s@) == Some(e@),
                Err(e) => spec_parse_additive(s@) is None && (e
                    matches AsmError::InvalidExpression(_)),
            },
        decreases s@.len(), 2int,
    {
        match rightmost_addsub(s) {
            Some(pos) => {
                let len = s.unicode_len();
                proof {
                    lemma_addsub_pos(s@, s@.len() - 1, 0);
                }
                let left = match Self::parse_additive(s.substring_char(0, pos)) {
                    Ok(l) => l,
                    Err(e) => {
                        return Err(e);
                    },
                };
                let right = match Self::parse_multiplicative(s.substring_char(pos + 1, len)) {
                    Ok(r) => r,
                    Err(e) => {
                        return Err(e);
                    },
                };
                if s.get_char(pos) == '+' {
                    Ok(Expr::Add(Box::new(left), Box::new(right)))
                } else {
                    Ok(Expr::Sub(Box::new(left), Box::new(right)))
                }
            },
            None => Self::parse_multiplicative(s),
        }
    }

    /// Parse multiplications and divisions.
    fn parse_multiplicative(s: &str) -> (r: Result<Expr, AsmError>)
        ensures
            match r {
                Ok(e) => spec_parse_multiplicative(s@) == Some(e@),
                Err(e) => spec_parse_multiplicative(s@) is None && (e
                    matches AsmError::InvalidExpression(_)),
            },
        decreases s@.len(), 1int,
    {
        match rightmost_muldiv(s) {
            Some(pos) => {
                let len = s.unicode_len();
                proof {
                    lemma_muldiv_pos(s@, s@.len() - 1, 0);
                }
                let left = match Self::parse_primary(s.substring_char(0, pos)) {
                    Ok(l) => l,
                    Err(e) => {
                        return Err(e);
                    },
                };
                let right = match Self::parse_primary(s.substring_char(pos + 1, len)) {
                    Ok(r) => r,
                    Err(e) => {
                        return Err(e);
                    },
                };
                if s.get_char(pos) == '*' {
                    Ok(Expr::Mul(Box::new(left), Box::new(right)))
                } else {
                    Ok(Expr::Div(Box::new(left), Box::new(right)))
                }
            },
            None => Self::parse_primary(s),
        }
    }

    /// Parse a primary expression.
    fn parse_primary(s: &str) -> (r: Result<Expr, AsmError>)
        ensures
            match r {
                Ok(e) => spec_parse_primary(s@) == Some(e@),
                Err(e) => spec_parse_primary(s@) is None && (e matches AsmError::InvalidExpression(
                    _,
                )),
            },
        decreases s@.len(), 0int,
    {
        let t = text::trim(s);
        let len = t.unicode_len();
        if len >= 2 && t.get_char(0) == '(' && t.get_char(len - 1) == ')' {
            let inner = t.substring_char(1, len - 1);
            assert(inner@ == text::spec_trim(s@).subrange(1, text::spec_trim(s@).len() - 1));
            return Self::parse(inner);
        }
        if len == 1 && t.get_char(0) == '*' {
            return Ok(Expr::CurrentAddress);
        }
        match NumberParser::parse(t) {
            Ok(n) => Ok(Expr::Number(n)),
            Err(_) => {
                if is_valid_label(t) {
                    Ok(Expr::Label(text::own(t)))
                } else {
                    Err(AsmError::InvalidExpression(text::own(t)))
                }
            },
        }
    }
}

} // verus!
