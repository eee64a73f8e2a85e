//! Numeric literals in hexadecimal, binary, and decimal notation.
//!
//! `$FF`, `0xFF` and `0xFFh` are hexadecimal, `%1010` and `0b1010` are
//! binary, and anything without a prefix is decimal.  Values are
//! unsigned and must fit in 32 bits.

use vstd::prelude::*;
use vstd::string::StrSliceExecFns;
use crate::error::AsmError;
use crate::text;

verus! {

/// The notation a numeric literal is written in.
#[derive(Debug, Clone, Copy, PartialEq, Eq, Structural)]
pub enum NumberFormat {
    Hexadecimal,
    Binary,
    Decimal,
}

/// Whether `c` is a valid digit in the given base (16, 2, or 10).
pub open spec fn is_base_digit(c: char, base: int) -> bool {
    if base == 16 {
        text::is_hex_digit(c)
    } else if base == 2 {
        text::is_bin_digit(c)
    } else {
        text::is_digit(c)
    }
}

/// The unbounded value of a digit string read in the given base,
/// assuming every character is a valid digit.
pub open spec fn digits_val(s: Seq<char>, base: int) -> int
    decreases s.len(),
{
    if s.len() == 0 {
        0
    } else {
        digits_val(s.drop_last(), base) * base + text::spec_digit_val(s.last())
    }
}

/// A digit string is well formed when it is non-empty and every
/// character is a digit of the base.
pub open spec fn all_digits(s: Seq<char>, base: int) -> bool {
    s.len() > 0 && forall|i: int| 0 <= i < s.len() ==> is_base_digit(s[i], base)
}

/// The value of a digit string in the given base: rejected when a
/// character is not a digit of that base or the value needs more than
/// 32 bits.
pub open spec fn spec_radix_value(s: Seq<char>, base: int) -> Option<u32> {
    if !all_digits(s, base) {
        None
    } else if digits_val(s, base) < 0x1_0000_0000 {
        Some(digits_val(s, base) as u32)
    } else {
        None
    }
}

/// The base and digit substring a literal resolves to: `$` and `0x`
/// select hexadecimal (the latter with an optional trailing `h`), `%`
/// and `0b` select binary, and everything else is read as decimal.
pub open spec fn spec_number_parts(s: Seq<char>) -> (int, Seq<char>) {
    let t = text::spec_trim(s);
    if t.len() >= 1 && t[0] == '$' {
        (16, t.skip(1))
    } else if t.len() >= 2 && t[0] == '0' && (t[1] == 'x' || t[1] == 'X') {
        let h = t.skip(2);
        if h.len() >= 1 && h.last() == 'h' {
            (16, h.drop_last())
        } else {
            (16, h)
        }
    } else if t.len() >= 1 && t[0] == '%' {
        (2, t.skip(1))
    } else if t.len() >= 2 && t[0] == '0' && (t[1] == 'b' || t[1] == 'B') {
        (2, t.skip(2))
    } else {
        (10, t)
    }
}

/// What parsing a numeric literal yields.
pub open spec fn spec_parse_number(s: Seq<char>) -> Option<u32> {
    spec_radix_value(spec_number_parts(s).1, spec_number_parts(s).0)
}

/// The format a literal announces through its prefix.
pub open spec fn spec_detect_format(s: Seq<char>) -> NumberFormat {
    let t = text::spec_trim(s);
    if t.len() >= 1 && t[0] == '$' || t.len() >= 2 && t[0] == '0' && (t[1] == 'x' || t[1]
        == 'X') {
        NumberFormat::Hexadecimal
    } else if t.len() >= 1 && t[0] == '%' || t.len() >= 2 && t[0] == '0' && (t[1] == 'b' || t[1]
        == 'B') {
        NumberFormat::Binary
    } else {
        NumberFormat::Decimal
    }
}

/// The format corresponding to a base.
pub open spec fn format_of_base(base: int) -> NumberFormat {
    if base == 16 {
        NumberFormat::Hexadecimal
    } else if base == 2 {
        NumberFormat::Binary
    } else {
        NumberFormat::Decimal
    }
}

/// The value of a digit string never shrinks as digits are appended.
proof fn lemma_digits_val_nonneg(s: Seq<char>, base: int)
    requires
        base >= 1,
    ensures
        digits_val(s, base) >= 0,
    decreases s.len(),
{
    if s.len() > 0 {
        lemma_digits_val_nonneg(s.drop_last(), base);
        assert(digits_val(s.drop_last(), base) * base >= 0) by (nonlinear_arith)
            requires
                digits_val(s.drop_last(), base) >= 0,
                base >= 1,
        ;
    }
}

/// Extending a digit string by valid digits never shrinks its value.
proof fn lemma_digits_val_monotone(s: Seq<char>, base: int, k: int)
    requires
        base >= 2,
        0 <= k <= s.len(),
    ensures
        digits_val(s, base) >= digits_val(s.take(k), base),
    decreases s.len() - k,
{
    if k < s.len() {
        lemma_digits_val_monotone(s, base, k + 1);
        assert(s.take(k + 1).drop_last() =~= s.take(k));
        lemma_digits_val_nonneg(s.take(k), base);
        let prev = digits_val(s.take(k), base);
        assert(digits_val(s.take(k + 1), base) == prev * base + text::spec_digit_val(
            s.take(k + 1).last(),
        ));
        assert(prev * base >= prev) by (nonlinear_arith)
            requires
                prev >= 0,
                base >= 2,
        ;
    } else {
        assert(s.take(k) =~= s);
    }
}

/// Numeric literal parsing.
pub struct NumberParser;

impl NumberParser {
    /// Accumulate the digits of `s` in the given base.
    fn radix_value(s: &str, base: u32) -> (r: Option<u32>)
        requires
            base == 16 || base == 2 || base == 10,
        ensures
            r == spec_radix_value(s@, base as int),
    {
        let len = s.unicode_len();
        if len == 0 {
            return None;
        }
        let mut val: u32 = 0;
        let mut i: usize = 0;
        while i < len
            invariant
                base == 16 || base == 2 || base == 10,
                len == s@.len(),
                0 < len,
                i <= len,
                forall|j: int| 0 <= j < i ==> is_base_digit(s@[j], base as int),
                val == digits_val(s@.take(i as int), base as int),
            decreases len - i,
        {
            let c = s.get_char(i);
            let ok = if base == 16 {
                text::hex_digit(c)
            } else if base == 2 {
                text::bin_digit(c)
            } else {
                text::digit(c)
            };
            if !ok {
                assert(!is_base_digit(s@[i as int], base as int));
                return None;
            }
            let d = text::digit_val(c);
            assert(d < base);
            proof {
                assert(s@.take(i + 1).drop_last() =~= s@.take(i as int));
                assert(s@.take(i + 1).last() == s@[i as int]);
            }
            if val > (u32::MAX - d) / base {
                // the value needs more than 32 bits, whatever follows
                proof {
                    lemma_digits_val_nonneg(s@.take(i as int), base as int);
                    assert((val as int) * (base as int) + (d as int) > 0xffff_ffff) by (nonlinear_arith)
                        requires
                            2 <= base as int,
                            (d as int) < (base as int),
                            (val as int) > (0xffff_ffff - d as int) / (base as int),
                            0 <= val as int,
                            0 <= d as int,
                    ;
                    assert(digits_val(s@.take(i + 1), base as int) > u32::MAX);
                    if all_digits(s@, base as int) {
                        lemma_digits_val_monotone(s@, base as int, i + 1);
                    }
                }
                return None;
            }
            proof {
                assert((val as int) * (base as int) + (d as int) <= 0xffff_ffff) by (nonlinear_arith)
                    requires
                        2 <= base as int,
                        (d as int) < (base as int),
                        (val as int) <= (0xffff_ffff - d as int) / (base as int),
                        0 <= val as int,
                        0 <= d as int,
                ;
            }
            val = val * base + d;
            i += 1;
        }
        proof {
            assert(s@.take(len as int) =~= s@);
        }
        Some(val)
    }

    /// Parse the digits of a hexadecimal literal, prefix already removed.
    fn parse_hex(s: &str) -> (r: Result<u32, AsmError>)
        ensures
            match r {
                Ok(v) => spec_radix_value(s@, 16) == Some(v),
                Err(e) => spec_radix_value(s@, 16) is None && (e matches AsmError::InvalidNumber {
                    format,
                    text,
                } && format == NumberFormat::Hexadecimal && text@ == s@),
            },
    {
        match Self::radix_value(s, 16) {
            Some(v) => Ok(v),
            None => Err(
                AsmError::InvalidNumber {
                    format: NumberFormat::Hexadecimal,
                    text: text::own(s),
                },
            ),
        }
    }

    /// Parse the digits of a binary literal, prefix already removed.
    fn parse_binary(s: &str) -> (r: Result<u32, AsmError>)
        ensures
            match r {
                Ok(v) => spec_radix_value(s@, 2) == Some(v),
                Err(e) => spec_radix_value(s@, 2) is None && (e matches AsmError::InvalidNumber {
                    format,
                    text,
                } && format == NumberFormat::Binary && text@ == s@),
            },
    {
        match Self::radix_value(s, 2) {
            Some(v) => Ok(v),
            None => Err(
                AsmError::InvalidNumber { format: NumberFormat::Binary, text: text::own(s) },
            ),
        }
    }

    /// Parse a decimal literal.
    fn parse_decimal(s: &str) -> (r: Result<u32, AsmError>)
        ensures
            match r {
                Ok(v) => spec_radix_value(s@, 10) == Some(v),
                Err(e) => spec_radix_value(s@, 10) is None && (e matches AsmError::InvalidNumber {
                    format,
                    text,
                } && format == NumberFormat::Decimal && text@ == s@),
            },
    {
        match Self::radix_value(s, 10) {
            Some(v) => Ok(v),
            None => Err(
                AsmError::InvalidNumber { format: NumberFormat::Decimal, text: text::own(s) },
            ),
        }
    }

    /// Parse a numeric literal in any supported notation.  The value is
    /// returned as 32 bits so that literals above `$FFFF` survive into
    /// expression arithmetic.
    pub fn parse(s: &str) -> (r: Result<u32, AsmError>)
        ensures
            match r {
                Ok(v) => spec_parse_number(s@) == Some(v),
                Err(e) => spec_parse_number(s@) is None && (e matches AsmError::InvalidNumber {
                    format,
                    text,
                } && format == format_of_base(spec_number_parts(s@).0) && text@
                    == spec_number_parts(s@).1),
            },
    {
        let t = text::trim(s);
        let len = t.unicode_len();
        if len >= 1 && t.get_char(0) == '$' {
            let rest = t.substring_char(1, len);
            assert(rest@ == text::spec_trim(s@).skip(1));
            return Self::parse_hex(rest);
        }
        if len >= 2 && t.get_char(0) == '0' && (t.get_char(1) == 'x' || t.get_char(1) == 'X') {
            let rest = t.substring_char(2, len);
            assert(rest@ == text::spec_trim(s@).skip(2));
            let rlen = rest.unicode_len();
            if rlen >= 1 && rest.get_char(rlen - 1) == 'h' {
                let bare = rest.substring_char(0, rlen - 1);
                assert(bare@ =~= rest@.drop_last());
                return Self::parse_hex(bare);
            }
            return Self::parse_hex(rest);
        }
        if len >= 1 && t.get_char(0) == '%' {
            let rest = t.substring_char(1, len);
            assert(rest@ == text::spec_trim(s@).skip(1));
            return Self::parse_binary(rest);
        }
        if len >= 2 && t.get_char(0) == '0' && (t.get_char(1) == 'b' || t.get_char(1) == 'B') {
            let rest = t.substring_char(2, len);
            assert(rest@ == text::spec_trim(s@).skip(2));
            return Self::parse_binary(rest);
        }
        Self::parse_decimal(t)
    }

    /// Report which notation a literal announces through its prefix.
    pub fn detect_format(s: &str) -> (r: NumberFormat)
        ensures
            r == spec_detect_format(s@),
    {
        let t = text::trim(s);
        let len = t.unicode_len();
        if len >= 1 && t.get_char(0) == '$' || len >= 2 && t.get_char(0) == '0' && (t.get_char(1)
            == 'x' || t.get_char(1) == 'X') {
            NumberFormat::Hexadecimal
        } else if len >= 1 && t.get_char(0) == '%' || len >= 2 && t.get_char(0) == '0' && (
        t.get_char(1) == 'b' || t.get_char(1) == 'B') {
            NumberFormat::Binary
        } else {
            NumberFormat::Decimal
        }
    }
}

} // verus!
