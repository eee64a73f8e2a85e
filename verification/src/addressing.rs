//! Addressing-mode overrides and branch detection.

use vstd::prelude::*;
use vstd::string::StrSliceExecFns;
use crate::text;

verus! {

/// How an operand prefix forces the addressing-mode choice: `<` forces
/// zero page, `>` forces absolute, no prefix leaves the choice to the
/// resolved value.
#[derive(Debug, Clone, Copy, PartialEq, Eq, Structural)]
pub enum AddrOverride {
    Auto,
    ForceZp,
    ForceAbs,
}

/// The operand text and override an operand string denotes.
pub open spec fn spec_addr_override(s: Seq<char>) -> (Seq<char>, AddrOverride) {
    if s.len() >= 1 && s[0] == '<' {
        (text::spec_trim(s.skip(1)), AddrOverride::ForceZp)
    } else if s.len() >= 1 && s[0] == '>' {
        (text::spec_trim(s.skip(1)), AddrOverride::ForceAbs)
    } else {
        (s, AddrOverride::Auto)
    }
}

/// Strip a `<` or `>` prefix off an operand.
pub fn parse_addr_override(operand: &str) -> (r: (&str, AddrOverride))
    ensures
        r.0@ == spec_addr_override(operand@).0,
        r.1 == spec_addr_override(operand@).1,
{
    let len = operand.unicode_len();
    if len >= 1 && operand.get_char(0) == '<' {
        let rest = text::trim(operand.substring_char(1, len));
        assert(rest@ == text::spec_trim(operand@.skip(1)));
        (rest, AddrOverride::ForceZp)
    } else if len >= 1 && operand.get_char(0) == '>' {
        let rest = text::trim(operand.substring_char(1, len));
        assert(rest@ == text::spec_trim(operand@.skip(1)));
        (rest, AddrOverride::ForceAbs)
    } else {
        (operand, AddrOverride::Auto)
    }
}

/// The eight conditional branch mnemonics.
pub open spec fn spec_is_branch(m: Seq<char>) -> bool {
    m == "BCC"@ || m == "BCS"@ || m == "BEQ"@ || m == "BMI"@ || m == "BNE"@ || m == "BPL"@ || m
        == "BVC"@ || m == "BVS"@
}

/// Whether a mnemonic is a conditional branch.
pub fn is_branch(mnemonic: &str) -> (r: bool)
    ensures
        r == spec_is_branch(mnemonic@),
{
    text::str_eq(mnemonic, "BCC") || text::str_eq(mnemonic, "BCS") || text::str_eq(mnemonic, "BEQ")
        || text::str_eq(mnemonic, "BMI") || text::str_eq(mnemonic, "BNE") || text::str_eq(
        mnemonic,
        "BPL",
    ) || text::str_eq(mnemonic, "BVC") || text::str_eq(mnemonic, "BVS")
}

} // verus!
