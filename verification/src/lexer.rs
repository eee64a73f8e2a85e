//! The line parser: source text to structured items.
//!
//! Each non-blank line (after the `;` comment is stripped) becomes one
//! item — a label, a constant definition, a data or origin directive,
//! or an instruction — except the combined `label: DCB ...` form, which
//! becomes two.

use vstd::prelude::*;
use vstd::string::StrSliceExecFns;
use crate::error::AsmError;
use crate::expr::{Expr, ExpressionParser, SpecExpr, expr_view, spec_parse_expr};
use crate::text;

verus! {

/// One program element.
#[derive(Debug, PartialEq)]
pub enum Item {
    /// An instruction with its raw, unparsed operand text.
    Instruction { mnemonic: String, operand: Option<String> },
    /// A label marking the current address; emits nothing.
    Label(String),
    /// A named constant bound to an expression; emits nothing.
    Constant(String, Expr),
    /// One byte per expression (`DCB`, `.byte`).
    Data(Vec<Expr>),
    /// Two little-endian bytes per expression (`.word`).
    Words(Vec<Expr>),
    /// The literal bytes of a quoted string (`.string`).
    String(String),
    /// The raw bytes of a named binary (`.incbin`).
    IncBin(String),
    /// Set the current address (`*=`); emits nothing.
    Org(Expr),
}

/// The mathematical shape of an [`Item`].
pub enum SpecItem {
    Instruction { mnemonic: Seq<char>, operand: Option<Seq<char>> },
    Label(Seq<char>),
    Constant(Seq<char>, SpecExpr),
    Data(Seq<SpecExpr>),
    Words(Seq<SpecExpr>),
    Text(Seq<char>),
    IncBin(Seq<char>),
    Org(SpecExpr),
}

/// The view of an item.
pub open spec fn item_view(it: Item) -> SpecItem {
    match it {
        Item::Instruction { mnemonic, operand } => SpecItem::Instruction {
            mnemonic: mnemonic@,
            operand: match operand {
                Some(o) => Some(o@),
                None => None,
            },
        },
        Item::Label(name) => SpecItem::Label(name@),
        Item::Constant(name, e) => SpecItem::Constant(name@, expr_view(e)),
        Item::Data(exprs) => SpecItem::Data(exprs@.map_values(|e: Expr| expr_view(e))),
        Item::Words(exprs) => SpecItem::Words(exprs@.map_values(|e: Expr| expr_view(e))),
        Item::String(s) => SpecItem::Text(s@),
        Item::IncBin(name) => SpecItem::IncBin(name@),
        Item::Org(e) => SpecItem::Org(expr_view(e)),
    }
}

impl View for Item {
    type V = SpecItem;

    open spec fn view(&self) -> SpecItem {
        item_view(*self)
    }
}

/// An exact copy of an expression list.
fn clone_exprs(v: &Vec<Expr>) -> (r: Vec<Expr>)
    ensures
        r@ == v@,
{
    let n = v.len();
    let mut out: Vec<Expr> = Vec::new();
    let mut i: usize = 0;
    while i < n
        invariant
            n == v@.len(),
            i <= n,
            out@ =~= v@.take(i as int),
        decreases n - i,
    {
        out.push(v[i].clone());
        i += 1;
    }
    proof {
        assert(v@.take(n as int) =~= v@);
    }
    out
}

impl Clone for Item {
    /// A copy with the same view.
    fn clone(&self) -> (r: Self)
        ensures
            r@ == self@,
    {
        match self {
            Item::Instruction { mnemonic, operand } => Item::Instruction {
                mnemonic: mnemonic.clone(),
                operand: match operand {
                    Some(o) => Some(o.clone()),
                    None => None,
                },
            },
            Item::Label(name) => Item::Label(name.clone()),
            Item::Constant(name, e) => Item::Constant(name.clone(), e.clone()),
            Item::Data(exprs) => Item::Data(clone_exprs(exprs)),
            Item::Words(exprs) => Item::Words(clone_exprs(exprs)),
            Item::String(s) => Item::String(s.clone()),
            Item::IncBin(name) => Item::IncBin(name.clone()),
            Item::Org(e) => Item::Org(e.clone()),
        }
    }
}

/// One parsed thing, or several: the combined label-plus-data line
/// yields two items at once.
#[derive(Debug)]
pub enum Either<T> {
    One(T),
    Many(Vec<T>),
}

// ===== Cleaning a line =====

/// A line with its comment stripped and surrounding whitespace removed.
pub open spec fn spec_clean(line: Seq<char>) -> Seq<char> {
    text::spec_trim(line.take(text::find_from(line, ';', 0)))
}

/// Cleaning is idempotent: a cleaned line has no `;` and no surrounding
/// whitespace left.
pub proof fn lemma_clean_idempotent(line: Seq<char>)
    ensures
        spec_clean(spec_clean(line)) == spec_clean(line),
{
    let semi = text::find_from(line, ';', 0);
    text::lemma_find_from(line, ';', 0);
    let x = line.take(semi);
    let cl = text::spec_trim(x);
    text::lemma_trim_chars(x);
    assert forall|i: int| 0 <= i < cl.len() implies cl[i] != ';' by {
        text::lemma_ltrim_len(x);
        text::lemma_rtrim_len(text::ltrim(x));
        let shift = x.len() - text::ltrim(x).len();
        assert(0 <= i + shift < x.len());
        assert(cl[i] == x[i + shift]);
        assert(x.len() == semi);
        assert(x[i + shift] == line[i + shift]);
    }
    text::lemma_find_from(cl, ';', 0);
    let semi2 = text::find_from(cl, ';', 0);
    assert(semi2 == cl.len());
    assert(cl.take(semi2) =~= cl);
    text::lemma_trim_idempotent(x);
}

/// Clean a line: strip from the first `;`, trim whitespace.
pub fn clean_line<'a>(line: &'a str) -> (r: &'a str)
    ensures
        r@ == spec_clean(line@),
{
    let semi = text::find_char(line, ';');
    let head = line.substring_char(0, semi);
    assert(head@ == line@.take(text::find_from(line@, ';', 0)));
    text::trim(head)
}

// ===== Expression lists =====

/// Parse every piece as an expression; the first failure wins.
pub open spec fn spec_parse_expr_list(pieces: Seq<Seq<char>>) -> Option<Seq<SpecExpr>>
    decreases pieces.len(),
{
    if pieces.len() == 0 {
        Some(Seq::<SpecExpr>::empty())
    } else {
        match spec_parse_expr(pieces[0]) {
            Some(e) => match spec_parse_expr_list(pieces.drop_first()) {
                Some(rest) => Some(seq![e] + rest),
                None => None,
            },
            None => None,
        }
    }
}

/// Parse a list of operand strings into expressions.
fn parse_expr_list(pieces: &Vec<String>) -> (r: Result<Vec<Expr>, AsmError>)
    ensures
        match r {
            Ok(exprs) => spec_parse_expr_list(pieces@.map_values(|p: String| p@)) == Some(
                exprs@.map_values(|e: Expr| expr_view(e)),
            ),
            Err(e) => spec_parse_expr_list(pieces@.map_values(|p: String| p@)) is None && (e
                matches AsmError::InvalidExpression(_)),
        },
{
    let ghost views = pieces@.map_values(|p: String| p@);
    let n = pieces.len();
    let mut out: Vec<Expr> = Vec::new();
    let mut i: usize = 0;
    proof {
        assert(views.skip(0) =~= views);
        if spec_parse_expr_list(views) is Some {
            assert(out@.map_values(|e: Expr| expr_view(e)) + spec_parse_expr_list(views)->Some_0
                =~= spec_parse_expr_list(views)->Some_0);
        }
    }
    while i < n
        invariant
            n == pieces@.len(),
            views == pieces@.map_values(|p: String| p@),
            i <= n,
            spec_parse_expr_list(views) == match spec_parse_expr_list(views.skip(i as int)) {
                Some(rest) => Some(out@.map_values(|e: Expr| expr_view(e)) + rest),
                None => None::<Seq<SpecExpr>>,
            },
        decreases n - i,
    {
        let ghost tail = views.skip(i as int);
        match ExpressionParser::parse(pieces[i].as_str()) {
            Ok(e) => {
                proof {
                    assert(tail[0] == views[i as int]);
                    assert(tail.drop_first() =~= views.skip(i + 1));
                }
                let ghost old_out = out@;
                out.push(e);
                proof {
                    let f = |e: Expr| expr_view(e);
                    assert(out@ =~= old_out.push(e));
                    assert(out@.map_values(f) =~= old_out.map_values(f).push(expr_view(e)));
                    if spec_parse_expr_list(views.skip(i + 1)) is Some {
                        let rest = spec_parse_expr_list(views.skip(i + 1))->Some_0;
                        assert(old_out.map_values(f) + (seq![expr_view(e)] + rest) =~= out@.map_values(
                            f,
                        ) + rest);
                    }
                }
            },
            Err(e) => {
                proof {
                    assert(tail[0] == views[i as int]);
                }
                return Err(e);
            },
        }
        i += 1;
    }
    proof {
        assert(views.skip(n as int) =~= Seq::<Seq<char>>::empty());
        assert(out@.map_values(|e: Expr| expr_view(e)) + Seq::<SpecExpr>::empty() =~= out@.map_values(
            |e: Expr| expr_view(e),
        ));
    }
    Ok(out)
}

// ===== One line =====

/// Which syntax error a line produces.
pub enum SpecLineErr {
    /// A piece that parses as no expression.
    BadExpr,
    /// A `.string` without matching quotes.
    BadString,
    /// An `.incbin` without matching quotes.
    BadIncBin,
}

/// What one source line denotes.
pub enum SpecLine {
    /// Nothing: the line is blank once cleaned.
    Empty,
    /// One item.
    One(SpecItem),
    /// A label and a data directive from the combined `label: DCB` form.
    Two(SpecItem, SpecItem),
    /// A syntax error.
    Fail(SpecLineErr),
}

/// Classify a cleaned line.  The checks run in order: the combined
/// `label: DCB` form, a plain label, a constant definition, the origin
/// directive, `.byte`, `.word`, `.string`, `.incbin`, `DCB`, and
/// finally an instruction split at its first whitespace.
pub open spec fn spec_parse_line_clean(l: Seq<char>) -> SpecLine {
    if l.len() == 0 {
        SpecLine::Empty
    } else if text::spec_contains_char(l, ':') && text::spec_contains_sub(l, "DCB"@) && ({
        let ci = text::find_from(l, ':', 0);
        let seg = l.skip(ci + 1);
        let rest = text::spec_trim(seg.take(text::find_from(seg, ':', 0)));
        text::spec_starts_with(rest, "DCB"@)
    }) {
        let ci = text::find_from(l, ':', 0);
        let label = text::spec_trim(l.take(ci));
        let seg = l.skip(ci + 1);
        let rest = text::spec_trim(seg.take(text::find_from(seg, ':', 0)));
        match spec_parse_expr_list(text::spec_split_ws(rest.skip(3))) {
            Some(exprs) => SpecLine::Two(SpecItem::Label(label), SpecItem::Data(exprs)),
            None => SpecLine::Fail(SpecLineErr::BadExpr),
        }
    } else if l.last() == ':' {
        SpecLine::One(SpecItem::Label(l.take(l.len() - 1)))
    } else if text::spec_contains_char(l, '=') && l[0] != '*' && ({
        let name = text::spec_trim(l.take(text::find_from(l, '=', 0)));
        name.len() > 0 && text::is_alpha(name[0])
    }) {
        let eq = text::find_from(l, '=', 0);
        let name = text::spec_trim(l.take(eq));
        let value = text::spec_trim(l.skip(eq + 1));
        match spec_parse_expr(value) {
            Some(e) => SpecLine::One(SpecItem::Constant(name, e)),
            None => SpecLine::Fail(SpecLineErr::BadExpr),
        }
    } else if text::spec_starts_with(l, "*="@) {
        match spec_parse_expr(text::spec_trim(l.skip(2))) {
            Some(e) => SpecLine::One(SpecItem::Org(e)),
            None => SpecLine::Fail(SpecLineErr::BadExpr),
        }
    } else if text::spec_starts_with(l, ".byte"@) {
        match spec_parse_expr_list(text::spec_split_char(l.skip(5), ',')) {
            Some(exprs) => SpecLine::One(SpecItem::Data(exprs)),
            None => SpecLine::Fail(SpecLineErr::BadExpr),
        }
    } else if text::spec_starts_with(l, ".word"@) {
        match spec_parse_expr_list(text::spec_split_char(l.skip(5), ',')) {
            Some(exprs) => SpecLine::One(SpecItem::Words(exprs)),
            None => SpecLine::Fail(SpecLineErr::BadExpr),
        }
    } else if text::spec_starts_with(l, ".string"@) {
        let rest = text::spec_trim(l.skip(7));
        if rest.len() >= 2 && rest[0] == '"' && rest.last() == '"' {
            SpecLine::One(SpecItem::Text(rest.subrange(1, rest.len() - 1)))
        } else {
            SpecLine::Fail(SpecLineErr::BadString)
        }
    } else if text::spec_starts_with(l, ".incbin"@) {
        let rest = text::spec_trim(l.skip(7));
        if rest.len() >= 2 && rest[0] == '"' && rest.last() == '"' {
            SpecLine::One(SpecItem::IncBin(rest.subrange(1, rest.len() - 1)))
        } else {
            SpecLine::Fail(SpecLineErr::BadIncBin)
        }
    } else if text::spec_starts_with(l, "DCB"@) {
        match spec_parse_expr_list(text::spec_split_ws(l.skip(3))) {
            Some(exprs) => SpecLine::One(SpecItem::Data(exprs)),
            None => SpecLine::Fail(SpecLineErr::BadExpr),
        }
    } else {
        let ws = text::space_from(l, 0);
        if ws == l.len() {
            SpecLine::One(SpecItem::Instruction { mnemonic: l, operand: None })
        } else {
            SpecLine::One(
                SpecItem::Instruction {
                    mnemonic: l.take(ws),
                    operand: Some(text::spec_trim(l.skip(ws + 1))),
                },
            )
        }
    }
}

/// What a raw line denotes, once cleaned.
pub open spec fn spec_parse_line(line: Seq<char>) -> SpecLine {
    spec_parse_line_clean(spec_clean(line))
}

/// Parse one source line.
pub fn parse_line(line: &str) -> (r: Result<Option<Either<Item>>, AsmError>)
    ensures
        match r {
            Ok(opt) => match opt {
                None => spec_parse_line(line@) is Empty,
                Some(Either::One(it)) => spec_parse_line(line@) == SpecLine::One(it@),
                Some(Either::Many(v)) => v@.len() == 2 && spec_parse_line(line@) == SpecLine::Two(
                    v@[0]@,
                    v@[1]@,
                ),
            },
            Err(e) => spec_parse_line(line@) is Fail && match spec_parse_line(line@)->Fail_0 {
                SpecLineErr::BadExpr => e matches AsmError::InvalidExpression(_),
                SpecLineErr::BadString => (e matches AsmError::MissingQuotes(d) && d@
                    == ".string"@),
                SpecLineErr::BadIncBin => (e matches AsmError::MissingQuotes(d) && d@
                    == ".incbin"@),
            },
        },
{
    let l = clean_line(line);
    let len = l.unicode_len();
    if len == 0 {
        return Ok(None);
    }
    // combined label-plus-data line
    if text::contains_char(l, ':') && text::contains_sub(l, "DCB") {
        let ci = text::find_char(l, ':');
        let label = text::trim(l.substring_char(0, ci));
        let seg = l.substring_char(ci + 1, len);
        proof {
            assert(seg@ == l@.skip(text::find_from(l@, ':', 0) + 1));
        }
        let seglen = seg.unicode_len();
        let ci2 = text::find_char(seg, ':');
        let rest = text::trim(seg.substring_char(0, ci2));
        proof {
            assert(label@ == text::spec_trim(l@.take(text::find_from(l@, ':', 0))));
            assert(rest@ == text::spec_trim(seg@.take(text::find_from(seg@, ':', 0))));
        }
        if text::starts_with(rest, "DCB") {
            let rlen = rest.unicode_len();
            proof {
                reveal_strlit("DCB");
            }
            let toks = text::split_ws(rest.substring_char(3, rlen));
            proof {
                assert(toks@.map_values(|p: String| p@) =~= text::spec_split_ws(rest@.skip(3)));
            }
            match parse_expr_list(&toks) {
                Ok(exprs) => {
                    let mut items: Vec<Item> = Vec::new();
                    items.push(Item::Label(text::own(label)));
                    items.push(Item::Data(exprs));
                    return Ok(Some(Either::Many(items)));
                },
                Err(e) => {
                    return Err(e);
                },
            }
        }
    }
    // plain label
    if l.get_char(len - 1) == ':' {
        return Ok(Some(Either::One(Item::Label(text::own(l.substring_char(0, len - 1))))));
    }
    // constant definition
    if text::contains_char(l, '=') && l.get_char(0) != '*' {
        let eq = text::find_char(l, '=');
        let name = text::trim(l.substring_char(0, eq));
        let nlen = name.unicode_len();
        proof {
            assert(name@ == text::spec_trim(l@.take(text::find_from(l@, '=', 0))));
        }
        if nlen > 0 && text::alpha(name.get_char(0)) {
            let value = text::trim(l.substring_char(eq + 1, len));
            proof {
                assert(value@ == text::spec_trim(l@.skip(text::find_from(l@, '=', 0) + 1)));
            }
            return match ExpressionParser::parse(value) {
                Ok(e) => Ok(Some(Either::One(Item::Constant(text::own(name), e)))),
                Err(e) => Err(e),
            };
        }
    }
    // origin directive
    if text::starts_with(l, "*=") {
        proof {
            reveal_strlit("*=");
        }
        let rest = text::trim(l.substring_char(2, len));
        assert(rest@ == text::spec_trim(l@.skip(2)));
        return match ExpressionParser::parse(rest) {
            Ok(e) => Ok(Some(Either::One(Item::Org(e)))),
            Err(e) => Err(e),
        };
    }
    // byte data, comma separated
    if text::starts_with(l, ".byte") {
        proof {
            reveal_strlit(".byte");
        }
        let pieces = text::split_char(l.substring_char(5, len), ',');
        proof {
            assert(pieces@.map_values(|p: String| p@) =~= text::spec_split_char(l@.skip(5), ','));
        }
        return match parse_expr_list(&pieces) {
            Ok(exprs) => Ok(Some(Either::One(Item::Data(exprs)))),
            Err(e) => Err(e),
        };
    }
    // word data, comma separated, little endian
    if text::starts_with(l, ".word") {
        proof {
            reveal_strlit(".word");
        }
        let pieces = text::split_char(l.substring_char(5, len), ',');
        proof {
            assert(pieces@.map_values(|p: String| p@) =~= text::spec_split_char(l@.skip(5), ','));
        }
        return match parse_expr_list(&pieces) {
            Ok(exprs) => Ok(Some(Either::One(Item::Words(exprs)))),
            Err(e) => Err(e),
        };
    }
    // quoted string data
    if text::starts_with(l, ".string") {
        proof {
            reveal_strlit(".string");
        }
        let rest = text::trim(l.substring_char(7, len));
        assert(rest@ == text::spec_trim(l@.skip(7)));
        let rlen = rest.unicode_len();
        if rlen >= 2 && rest.get_char(0) == '"' && rest.get_char(rlen - 1) == '"' {
            let content = rest.substring_char(1, rlen - 1);
            return Ok(Some(Either::One(Item::String(text::own(content)))));
        }
        return Err(AsmError::MissingQuotes(text::own(".string")));
    }
    // quoted binary inclusion
    if text::starts_with(l, ".incbin") {
        proof {
            reveal_strlit(".incbin");
        }
        let rest = text::trim(l.substring_char(7, len));
        assert(rest@ == text::spec_trim(l@.skip(7)));
        let rlen = rest.unicode_len();
        if rlen >= 2 && rest.get_char(0) == '"' && rest.get_char(rlen - 1) == '"' {
            let content = rest.substring_char(1, rlen - 1);
            return Ok(Some(Either::One(Item::IncBin(text::own(content)))));
        }
        return Err(AsmError::MissingQuotes(text::own(".incbin")));
    }
    // byte data, whitespace separated
    if text::starts_with(l, "DCB") {
        proof {
            reveal_strlit("DCB");
        }
        let toks = text::split_ws(l.substring_char(3, len));
        proof {
            assert(toks@.map_values(|p: String| p@) =~= text::spec_split_ws(l@.skip(3)));
        }
        return match parse_expr_list(&toks) {
            Ok(exprs) => Ok(Some(Either::One(Item::Data(exprs)))),
            Err(e) => Err(e),
        };
    }
    // an instruction: split at the first whitespace only, so operands
    // may contain spaces
    let ws = text::find_space_from(l, 0);
    if ws == len {
        Ok(Some(Either::One(Item::Instruction { mnemonic: text::own(l), operand: None })))
    } else {
        let operand = text::trim(l.substring_char(ws + 1, len));
        assert(operand@ == text::spec_trim(l@.skip(text::space_from(l@, 0) + 1)));
        Ok(
            Some(
                Either::One(
                    Item::Instruction {
                        mnemonic: text::own(l.substring_char(0, ws)),
                        operand: Some(text::own(operand)),
                    },
                ),
            ),
        )
    }
}

// ===== Whole source =====

/// A line with one trailing carriage return removed.
pub open spec fn strip_cr(s: Seq<char>) -> Seq<char> {
    if s.len() > 0 && s.last() == '\r' {
        s.drop_last()
    } else {
        s
    }
}

/// The lines of a source text: split at every newline, dropping one
/// trailing carriage return per line; a final newline ends the last
/// line rather than opening an empty one.
pub open spec fn spec_lines(src: Seq<char>) -> Seq<Seq<char>>
    decreases src.len(),
    via spec_lines_dec
{
    if src.len() == 0 {
        Seq::<Seq<char>>::empty()
    } else {
        let nl = text::find_from(src, '\n', 0);
        if nl == src.len() {
            seq![strip_cr(src)]
        } else {
            seq![strip_cr(src.take(nl))] + spec_lines(src.skip(nl + 1))
        }
    }
}

#[via_fn]
proof fn spec_lines_dec(src: Seq<char>) {
    if src.len() > 0 {
        text::lemma_find_from(src, '\n', 0);
    }
}

/// Searching in a suffix finds the same position, shifted.
proof fn lemma_find_from_skip(s: Seq<char>, c: char, p: int, j: int)
    requires
        0 <= p <= s.len(),
        0 <= j,
    ensures
        text::find_from(s.skip(p), c, j) == text::find_from(s, c, p + j) - p,
    decreases s.len() - p - j,
{
    if p + j < s.len() {
        assert(s.skip(p)[j] == s[p + j]);
        if s[p + j] != c {
            lemma_find_from_skip(s, c, p, j + 1);
        }
    }
}

/// What parsing a whole source yields: the item list, or the failing
/// line's one-based number and error kind.
pub enum SpecSource {
    Items(Seq<SpecItem>),
    Fail(int, SpecLineErr),
}

/// Parse the lines from position `i` on, skipping blank ones; the
/// first failure wins and is reported with its one-based line number.
pub open spec fn spec_parse_lines(lines: Seq<Seq<char>>, i: int) -> SpecSource
    decreases lines.len() - i,
{
    if i >= lines.len() {
        SpecSource::Items(Seq::<SpecItem>::empty())
    } else {
        let cl = spec_clean(lines[i]);
        if cl.len() == 0 {
            spec_parse_lines(lines, i + 1)
        } else {
            match spec_parse_line_clean(cl) {
                SpecLine::Empty => spec_parse_lines(lines, i + 1),
                SpecLine::One(it) => match spec_parse_lines(lines, i + 1) {
                    SpecSource::Items(rest) => SpecSource::Items(seq![it] + rest),
                    f => f,
                },
                SpecLine::Two(a, b) => match spec_parse_lines(lines, i + 1) {
                    SpecSource::Items(rest) => SpecSource::Items(seq![a, b] + rest),
                    f => f,
                },
                SpecLine::Fail(k) => SpecSource::Fail(i + 1, k),
            }
        }
    }
}

/// What parsing a source text yields.
pub open spec fn spec_parse_source(src: Seq<char>) -> SpecSource {
    spec_parse_lines(spec_lines(src), 0)
}

/// Prefix already-parsed items onto the outcome of the remaining lines.
pub open spec fn prepend_items(done: Seq<SpecItem>, rest: SpecSource) -> SpecSource {
    match rest {
        SpecSource::Items(r) => SpecSource::Items(done + r),
        f => f,
    }
}

/// Each line of a split consumes at least one character.
proof fn lemma_lines_count(src: Seq<char>)
    ensures
        spec_lines(src).len() <= src.len(),
    decreases src.len(),
{
    if src.len() > 0 {
        let nl = text::find_from(src, '\n', 0);
        text::lemma_find_from(src, '\n', 0);
        if nl < src.len() {
            lemma_lines_count(src.skip(nl + 1));
        }
    }
}

/// Parse an entire source text into a list of items.
#[verifier::rlimit(100)]
pub fn parse_source(source: &str) -> (r: Result<Vec<Item>, AsmError>)
    ensures
        match r {
            Ok(items) => spec_parse_source(source@) == SpecSource::Items(
                items@.map_values(|it: Item| item_view(it)),
            ),
            Err(e) => spec_parse_source(source@) is Fail && (e matches AsmError::LineError {
                line,
                text,
                cause,
            } && {
                let n = spec_parse_source(source@)->Fail_0;
                let k = spec_parse_source(source@)->Fail_1;
                &&& line as int == n
                &&& 1 <= n <= spec_lines(source@).len()
                &&& text@ == spec_clean(spec_lines(source@)[n - 1])
                &&& match k {
                    SpecLineErr::BadExpr => *cause matches AsmError::InvalidExpression(_),
                    SpecLineErr::BadString => (*cause matches AsmError::MissingQuotes(d) && d@
                        == ".string"@),
                    SpecLineErr::BadIncBin => (*cause matches AsmError::MissingQuotes(d) && d@
                        == ".incbin"@),
                }
            }),
        },
{
    let len = source.unicode_len();
    let ghost lns = spec_lines(source@);
    let mut items: Vec<Item> = Vec::new();
    let mut pos: usize = 0;
    let mut line_num: usize = 0;
    proof {
        assert(source@.skip(0) =~= source@);
        lemma_lines_count(source@);
    }
    loop
        invariant_except_break
            len == source@.len(),
            pos <= len,
            lns == spec_lines(source@),
            lns.len() <= len,
            line_num <= lns.len(),
            pos == len ==> line_num == lns.len(),
            spec_lines(source@.skip(pos as int)) =~~= lns.skip(line_num as int),
            spec_parse_lines(lns, 0) == prepend_items(
                items@.map_values(|it: Item| item_view(it)),
                spec_parse_lines(lns, line_num as int),
            ),
        ensures
            spec_parse_lines(lns, 0) == SpecSource::Items(
                items@.map_values(|it: Item| item_view(it)),
            ),
        decreases len - pos + 1,
    {
        let ghost f = |it: Item| item_view(it);
        if pos == len {
            proof {
                assert(spec_parse_lines(lns, line_num as int) == SpecSource::Items(
                    Seq::<SpecItem>::empty(),
                ));
                assert(items@.map_values(f) + Seq::<SpecItem>::empty() =~= items@.map_values(f));
            }
            break;
        }
        let nl = text::find_char_from(source, '\n', pos);
        proof {
            lemma_find_from_skip(source@, '\n', pos as int, 0);
            text::lemma_find_from(source@, '\n', pos as int);
        }
        // the raw line, with a trailing carriage return stripped
        let line_end = if nl > pos && source.get_char(nl - 1) == '\r' {
            nl - 1
        } else {
            nl
        };
        let raw = source.substring_char(pos, line_end);
        let ghost tail = source@.skip(pos as int);
        proof {
            if nl == len {
                assert(tail =~= source@.subrange(pos as int, nl as int));
                assert(strip_cr(tail) =~= raw@);
                assert(spec_lines(tail) == seq![strip_cr(tail)]);
            } else {
                assert(tail.take(nl - pos) =~= source@.subrange(pos as int, nl as int));
                assert(strip_cr(tail.take(nl - pos)) =~= raw@);
                assert(spec_lines(tail) == seq![strip_cr(tail.take(nl - pos))] + spec_lines(
                    tail.skip(nl - pos + 1),
                ));
                assert(tail.skip(nl - pos + 1) =~= source@.skip(nl + 1));
            }
            assert(lns.skip(line_num as int)[0] == lns[line_num as int]);
            assert(lns[line_num as int] == raw@);
        }
        let cl = clean_line(raw);
        let cllen = cl.unicode_len();
        if cllen > 0 {
            match parse_line(cl) {
                Ok(opt) => {
                    proof {
                        lemma_clean_idempotent(raw@);
                        assert(spec_clean(cl@) == spec_clean(raw@));
                    }
                    let ghost before = items@;
                    match opt {
                        None => {
                            // a cleaned line that is non-empty never
                            // cleans to nothing again
                            proof {
                                assert(spec_parse_line(cl@) is Empty);
                                assert(spec_parse_line_clean(spec_clean(raw@)) is Empty);
                                assert(spec_clean(raw@).len() > 0);
                                assert(false);
                            }
                        },
                        Some(Either::One(it)) => {
                            items.push(it);
                            proof {
                                assert(items@ =~= before.push(it));
                                assert(items@.map_values(f) =~= before.map_values(f).push(it@));
                                match spec_parse_lines(lns, line_num + 1) {
                                    SpecSource::Items(rest) => {
                                        assert(before.map_values(f) + (seq![it@] + rest)
                                            =~= items@.map_values(f) + rest);
                                    },
                                    SpecSource::Fail(_, _) => {},
                                }
                            }
                        },
                        Some(Either::Many(v)) => {
                            let mut v2 = v;
                            let b = v2.pop().unwrap();
                            let a = v2.pop().unwrap();
                            items.push(a);
                            items.push(b);
                            proof {
                                assert(items@ =~= before.push(v@[0]).push(v@[1]));
                                assert(items@.map_values(f) =~= before.map_values(f).push(
                                    v@[0]@,
                                ).push(v@[1]@));
                                match spec_parse_lines(lns, line_num + 1) {
                                    SpecSource::Items(rest) => {
                                        assert(before.map_values(f) + (seq![v@[0]@, v@[1]@] + rest)
                                            =~= items@.map_values(f) + rest);
                                    },
                                    SpecSource::Fail(_, _) => {},
                                }
                            }
                        },
                    }
                },
                Err(e) => {
                    proof {
                        lemma_clean_idempotent(raw@);
                        assert(spec_clean(cl@) == spec_clean(raw@));
                        assert(line_num < lns.len());
                        assert(spec_parse_lines(lns, 0) == SpecSource::Fail(
                            line_num + 1,
                            spec_parse_line(cl@)->Fail_0,
                        ));
                    }
                    return Err(
                        AsmError::LineError {
                            line: line_num + 1,
                            text: text::own(cl),
                            cause: Box::new(e),
                        },
                    );
                },
            }
        } else {
            proof {
                lemma_clean_idempotent(raw@);
                assert(spec_clean(raw@).len() == 0);
            }
        }
        proof {
            if nl == len {
                assert(spec_lines(source@.skip(len as int)) =~~= lns.skip(line_num + 1)) by {
                    assert(source@.skip(len as int) =~= Seq::<char>::empty());
                    assert(lns.skip(line_num as int) =~= seq![lns[line_num as int]]);
                    assert(lns.skip(line_num as int).skip(1) =~= lns.skip(line_num + 1));
                };
                assert(line_num + 1 == lns.len());
            } else {
                assert(spec_lines(source@.skip(nl + 1)) =~~= lns.skip(line_num + 1)) by {
                    assert(lns.skip(line_num as int).skip(1) =~= lns.skip(line_num + 1));
                };
            }
        }
        pos = if nl == len {
            len
        } else {
            nl + 1
        };
        proof {
            assert(line_num < lns.len());
        }
        line_num += 1;
    }
    Ok(items)
}

} // verus!
