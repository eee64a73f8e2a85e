//! Character-level helpers for source text.
//!
//! All executable functions here mirror a spec function over `Seq<char>`
//! exactly, so the parsing layers above can state their contracts over
//! views of the text.

use vstd::prelude::*;
use vstd::string::StrSliceExecFns;
use vstd::string::StringExecFns;

verus! {

// ===== Character classes =====

/// The whitespace characters the assembler recognizes.
pub open spec fn is_space(c: char) -> bool {
    c == ' ' || c == '\t' || c == '\r' || c == '\n'
}

/// Executable counterpart of [`is_space`].
#[verifier::when_used_as_spec(is_space)]
pub fn space(c: char) -> (r: bool)
    ensures
        r == is_space(c),
{
    c == ' ' || c == '\t' || c == '\r' || c == '\n'
}

pub open spec fn is_digit(c: char) -> bool {
    '0' <= c && c <= '9'
}

#[verifier::when_used_as_spec(is_digit)]
pub fn digit(c: char) -> (r: bool)
    ensures
        r == is_digit(c),
{
    '0' <= c && c <= '9'
}

pub open spec fn is_hex_digit(c: char) -> bool {
    is_digit(c) || ('a' <= c && c <= 'f') || ('A' <= c && c <= 'F')
}

#[verifier::when_used_as_spec(is_hex_digit)]
pub fn hex_digit(c: char) -> (r: bool)
    ensures
        r == is_hex_digit(c),
{
    digit(c) || ('a' <= c && c <= 'f') || ('A' <= c && c <= 'F')
}

pub open spec fn is_bin_digit(c: char) -> bool {
    c == '0' || c == '1'
}

#[verifier::when_used_as_spec(is_bin_digit)]
pub fn bin_digit(c: char) -> (r: bool)
    ensures
        r == is_bin_digit(c),
{
    c == '0' || c == '1'
}

pub open spec fn is_alpha(c: char) -> bool {
    ('a' <= c && c <= 'z') || ('A' <= c && c <= 'Z')
}

#[verifier::when_used_as_spec(is_alpha)]
pub fn alpha(c: char) -> (r: bool)
    ensures
        r == is_alpha(c),
{
    ('a' <= c && c <= 'z') || ('A' <= c && c <= 'Z')
}

/// Alphanumeric or underscore: the characters allowed after the first
/// character of a label.
pub open spec fn is_label_rest(c: char) -> bool {
    is_alpha(c) || is_digit(c) || c == '_'
}

#[verifier::when_used_as_spec(is_label_rest)]
pub fn label_rest(c: char) -> (r: bool)
    ensures
        r == is_label_rest(c),
{
    alpha(c) || digit(c) || c == '_'
}

/// The numeric value of a digit in bases up to 16.
pub open spec fn spec_digit_val(c: char) -> u32 {
    if is_digit(c) {
        (c as u32 - '0' as u32) as u32
    } else if 'a' <= c && c <= 'f' {
        (c as u32 - 'a' as u32 + 10) as u32
    } else if 'A' <= c && c <= 'F' {
        (c as u32 - 'A' as u32 + 10) as u32
    } else {
        0
    }
}

#[verifier::when_used_as_spec(spec_digit_val)]
pub fn digit_val(c: char) -> (r: u32)
    ensures
        r == spec_digit_val(c),
        is_hex_digit(c) ==> r < 16,
        is_digit(c) ==> r < 10,
        is_bin_digit(c) ==> r < 2,
{
    if digit(c) {
        c as u32 - '0' as u32
    } else if 'a' <= c && c <= 'f' {
        c as u32 - 'a' as u32 + 10
    } else if 'A' <= c && c <= 'F' {
        c as u32 - 'A' as u32 + 10
    } else {
        0
    }
}

// ===== Equality =====

/// String equality, decided character by character.
pub fn str_eq(a: &str, b: &str) -> (r: bool)
    ensures
        r == (a@ == b@),
{
    let alen = a.unicode_len();
    let blen = b.unicode_len();
    if alen != blen {
        assert(a@ != b@) by {
            assert(a@.len() != b@.len());
        }
        return false;
    }
    let mut i: usize = 0;
    while i < alen
        invariant
            alen == a@.len(),
            blen == b@.len(),
            alen == blen,
            i <= alen,
            forall|j: int| 0 <= j < i ==> a@[j] == b@[j],
        decreases alen - i,
    {
        if a.get_char(i) != b.get_char(i) {
            assert(a@ != b@) by {
                assert(a@[i as int] != b@[i as int]);
            }
            return false;
        }
        i += 1;
    }
    assert(a@ =~= b@);
    true
}

// ===== Trimming =====

/// `s` with its leading whitespace removed.
pub open spec fn ltrim(s: Seq<char>) -> Seq<char>
    decreases s.len(),
{
    if s.len() > 0 && is_space(s[0]) {
        ltrim(s.drop_first())
    } else {
        s
    }
}

/// `s` with its trailing whitespace removed.
pub open spec fn rtrim(s: Seq<char>) -> Seq<char>
    decreases s.len(),
{
    if s.len() > 0 && is_space(s.last()) {
        rtrim(s.drop_last())
    } else {
        s
    }
}

/// `s` with leading and trailing whitespace removed.
pub open spec fn spec_trim(s: Seq<char>) -> Seq<char> {
    rtrim(ltrim(s))
}

pub proof fn lemma_ltrim_skip(s: Seq<char>, a: int)
    requires
        0 <= a <= s.len(),
        forall|j: int| 0 <= j < a ==> is_space(s[j]),
    ensures
        ltrim(s) == ltrim(s.skip(a)),
    decreases a,
{
    if a > 0 {
        assert(is_space(s[0]));
        assert(s.drop_first() =~= s.skip(1));
        lemma_ltrim_skip(s.skip(1), a - 1);
        assert(s.skip(1).skip(a - 1) =~= s.skip(a));
    } else {
        assert(s.skip(0) =~= s);
    }
}

pub proof fn lemma_rtrim_take(s: Seq<char>, b: int)
    requires
        0 <= b <= s.len(),
        forall|j: int| b <= j < s.len() ==> is_space(s[j]),
    ensures
        rtrim(s) == rtrim(s.take(b)),
    decreases s.len() - b,
{
    if b < s.len() {
        assert(is_space(s.last()));
        assert(s.drop_last() =~= s.take(s.len() - 1));
        lemma_rtrim_take(s.take(s.len() - 1), b);
        assert(s.take(s.len() - 1).take(b) =~= s.take(b));
    } else {
        assert(s.take(s.len() as int) =~= s);
    }
}

/// The length of a trimmed string never exceeds the original's.
pub proof fn lemma_ltrim_len(s: Seq<char>)
    ensures
        ltrim(s).len() <= s.len(),
        ltrim(s).len() > 0 ==> !is_space(ltrim(s)[0]),
    decreases s.len(),
{
    if s.len() > 0 && is_space(s[0]) {
        lemma_ltrim_len(s.drop_first());
    }
}

pub proof fn lemma_rtrim_len(s: Seq<char>)
    ensures
        rtrim(s).len() <= s.len(),
    decreases s.len(),
{
    if s.len() > 0 && is_space(s.last()) {
        lemma_rtrim_len(s.drop_last());
    }
}

pub proof fn lemma_trim_len(s: Seq<char>)
    ensures
        spec_trim(s).len() <= s.len(),
{
    lemma_ltrim_len(s);
    lemma_rtrim_len(ltrim(s));
}

/// `ltrim` removes a prefix: what is left is a suffix of `s`.
pub proof fn lemma_ltrim_shape(s: Seq<char>)
    ensures
        ltrim(s).len() <= s.len(),
        ltrim(s) == s.skip(s.len() - ltrim(s).len()),
    decreases s.len(),
{
    if s.len() > 0 && is_space(s[0]) {
        lemma_ltrim_shape(s.drop_first());
        assert(s.drop_first() =~= s.skip(1));
        assert(s.skip(1).skip(s.len() - 1 - ltrim(s).len()) =~= s.skip(s.len() - ltrim(s).len()));
    } else {
        assert(s.skip(0) =~= s);
    }
}

/// `rtrim` removes a suffix: what is left is a prefix of `s`, and its
/// last character is not whitespace.
pub proof fn lemma_rtrim_shape(s: Seq<char>)
    ensures
        rtrim(s).len() <= s.len(),
        rtrim(s) == s.take(rtrim(s).len() as int),
        rtrim(s).len() > 0 ==> !is_space(rtrim(s).last()),
    decreases s.len(),
{
    if s.len() > 0 && is_space(s.last()) {
        lemma_rtrim_shape(s.drop_last());
        assert(s.drop_last() =~= s.take(s.len() - 1));
        assert(s.take(s.len() - 1).take(rtrim(s).len() as int) =~= s.take(rtrim(s).len() as int));
    } else {
        assert(s.take(s.len() as int) =~= s);
    }
}

/// Every character of the trimmed string occurs in the original, at an
/// offset shifted by the removed prefix.
pub proof fn lemma_trim_chars(s: Seq<char>)
    ensures
        spec_trim(s).len() <= s.len(),
        forall|i: int|
            0 <= i < spec_trim(s).len() ==> spec_trim(s)[i] == s[i + (s.len() - ltrim(s).len())],
        spec_trim(s).len() > 0 ==> !is_space(spec_trim(s)[0]),
        spec_trim(s).len() > 0 ==> !is_space(spec_trim(s).last()),
{
    lemma_ltrim_shape(s);
    lemma_rtrim_shape(ltrim(s));
    lemma_ltrim_len(s);
}

/// Trimming twice is the same as trimming once.
pub proof fn lemma_trim_idempotent(s: Seq<char>)
    ensures
        spec_trim(spec_trim(s)) == spec_trim(s),
{
    lemma_trim_chars(s);
    let t = spec_trim(s);
    assert(ltrim(t) == t);
    assert(rtrim(t) == t);
}

/// Remove leading and trailing whitespace.
pub fn trim<'a>(s: &'a str) -> (r: &'a str)
    ensures
        r@ == spec_trim(s@),
        r@.len() <= s@.len(),
{
    let len = s.unicode_len();
    let mut a: usize = 0;
    while a < len && space(s.get_char(a))
        invariant
            len == s@.len(),
            a <= len,
            forall|j: int| 0 <= j < a ==> is_space(s@[j]),
        decreases len - a,
    {
        a += 1;
    }
    let mut b: usize = len;
    while b > a && space(s.get_char(b - 1))
        invariant
            len == s@.len(),
            a <= b <= len,
            forall|j: int| b <= j < len ==> is_space(s@[j]),
        decreases b,
    {
        b -= 1;
    }
    let r = s.substring_char(a, b);
    proof {
        lemma_ltrim_skip(s@, a as int);
        let tail = s@.skip(a as int);
        if a < len {
            assert(!is_space(tail[0]));
            assert(ltrim(tail) == tail);
        } else {
            assert(tail =~= Seq::<char>::empty());
        }
        lemma_rtrim_take(tail, b - a);
        assert(tail.take(b - a) =~= s@.subrange(a as int, b as int));
        let mid = s@.subrange(a as int, b as int);
        if b > a {
            assert(!is_space(mid.last()));
            assert(rtrim(mid) == mid);
        }
        assert(r@ == spec_trim(s@));
    }
    r
}

// ===== Searching =====

/// The first position at or after `i` where `c` occurs, or the length of
/// `s` when it does not.
pub open spec fn find_from(s: Seq<char>, c: char, i: int) -> int
    decreases s.len() - i,
{
    if i < 0 {
        find_from(s, c, 0)
    } else if i >= s.len() {
        s.len() as int
    } else if s[i] == c {
        i
    } else {
        find_from(s, c, i + 1)
    }
}

pub proof fn lemma_find_from(s: Seq<char>, c: char, i: int)
    requires
        0 <= i <= s.len(),
    ensures
        i <= find_from(s, c, i) <= s.len(),
        find_from(s, c, i) < s.len() ==> s[find_from(s, c, i)] == c,
        forall|j: int| i <= j < find_from(s, c, i) ==> s[j] != c,
    decreases s.len() - i,
{
    if i < s.len() && s[i] != c {
        lemma_find_from(s, c, i + 1);
    }
}

/// Find the first occurrence of `c` at or after `from`; returns the
/// length of `s` when there is none.
pub fn find_char_from(s: &str, c: char, from: usize) -> (r: usize)
    requires
        from <= s@.len(),
    ensures
        r == find_from(s@, c, from as int),
        from <= r <= s@.len(),
        r < s@.len() ==> s@[r as int] == c,
        forall|j: int| from <= j < r ==> s@[j] != c,
{
    let len = s.unicode_len();
    let mut i: usize = from;
    while i < len
        invariant
            len == s@.len(),
            from <= i <= len,
            find_from(s@, c, from as int) == find_from(s@, c, i as int),
            forall|j: int| from <= j < i ==> s@[j] != c,
        decreases len - i,
    {
        if s.get_char(i) == c {
            return i;
        }
        i += 1;
    }
    i
}

/// Find the first occurrence of `c` in `s`.
pub fn find_char(s: &str, c: char) -> (r: usize)
    ensures
        r == find_from(s@, c, 0),
        r <= s@.len(),
        r < s@.len() ==> s@[r as int] == c,
        forall|j: int| 0 <= j < r ==> s@[j] != c,
{
    find_char_from(s, c, 0)
}

/// True when `c` occurs anywhere in `s`.
pub open spec fn spec_contains_char(s: Seq<char>, c: char) -> bool {
    find_from(s, c, 0) < s.len()
}

pub fn contains_char(s: &str, c: char) -> (r: bool)
    ensures
        r == spec_contains_char(s@, c),
        r == exists|j: int| 0 <= j < s@.len() && s@[j] == c,
{
    let i = find_char(s, c);
    proof {
        lemma_find_from(s@, c, 0);
        if i < s@.len() {
            assert(s@[i as int] == c);
        }
    }
    i < s.unicode_len()
}

/// The first position at or after `i` where a whitespace character
/// occurs, or the length of `s` when there is none.
pub open spec fn space_from(s: Seq<char>, i: int) -> int
    decreases s.len() - i,
{
    if i < 0 {
        space_from(s, 0)
    } else if i >= s.len() {
        s.len() as int
    } else if is_space(s[i]) {
        i
    } else {
        space_from(s, i + 1)
    }
}

/// Find the first whitespace character at or after `from`.
pub fn find_space_from(s: &str, from: usize) -> (r: usize)
    requires
        from <= s@.len(),
    ensures
        r == space_from(s@, from as int),
        from <= r <= s@.len(),
        r < s@.len() ==> is_space(s@[r as int]),
        forall|j: int| from <= j < r ==> !is_space(s@[j]),
{
    let len = s.unicode_len();
    let mut i: usize = from;
    while i < len
        invariant
            len == s@.len(),
            from <= i <= len,
            space_from(s@, from as int) == space_from(s@, i as int),
            forall|j: int| from <= j < i ==> !is_space(s@[j]),
        decreases len - i,
    {
        if space(s.get_char(i)) {
            return i;
        }
        i += 1;
    }
    i
}

/// True when `p` starts `s`.
pub open spec fn spec_starts_with(s: Seq<char>, p: Seq<char>) -> bool {
    p.len() <= s.len() && s.take(p.len() as int) == p
}

pub fn starts_with(s: &str, p: &str) -> (r: bool)
    ensures
        r == spec_starts_with(s@, p@),
{
    let slen = s.unicode_len();
    let plen = p.unicode_len();
    if plen > slen {
        return false;
    }
    let head = s.substring_char(0, plen);
    let r = str_eq(head, p);
    proof {
        assert(head@ == s@.take(plen as int));
    }
    r
}

/// True when `p` ends `s`.
pub open spec fn spec_ends_with(s: Seq<char>, p: Seq<char>) -> bool {
    p.len() <= s.len() && s.skip(s.len() - p.len()) == p
}

pub fn ends_with(s: &str, p: &str) -> (r: bool)
    ensures
        r == spec_ends_with(s@, p@),
{
    let slen = s.unicode_len();
    let plen = p.unicode_len();
    if plen > slen {
        return false;
    }
    let tail = s.substring_char(slen - plen, slen);
    let r = str_eq(tail, p);
    proof {
        assert(tail@ == s@.skip(s@.len() - p@.len()));
    }
    r
}

/// The first position at or after `i` where `p` occurs as a contiguous
/// run in `s`, or the length of `s` when it occurs nowhere.
pub open spec fn sub_find_from(s: Seq<char>, p: Seq<char>, i: int) -> int
    decreases s.len() - i,
{
    if i < 0 {
        sub_find_from(s, p, 0)
    } else if i + p.len() > s.len() {
        s.len() as int
    } else if p.len() == 0 {
        i
    } else if s.subrange(i, i + p.len()) == p {
        i
    } else {
        sub_find_from(s, p, i + 1)
    }
}

pub proof fn lemma_sub_find_from(s: Seq<char>, p: Seq<char>, i: int)
    requires
        0 <= i <= s.len(),
    ensures
        i <= sub_find_from(s, p, i) <= s.len(),
        sub_find_from(s, p, i) + p.len() <= s.len() ==> s.subrange(
            sub_find_from(s, p, i),
            sub_find_from(s, p, i) + p.len(),
        ) == p,
    decreases s.len() - i,
{
    if i + p.len() <= s.len() && p.len() == 0 {
        assert(s.subrange(i, i) =~= p);
    } else if i + p.len() <= s.len() && s.subrange(i, i + p.len()) != p {
        lemma_sub_find_from(s, p, i + 1);
    }
}

/// True when `p` occurs as a contiguous run somewhere in `s`.
pub open spec fn spec_contains_sub(s: Seq<char>, p: Seq<char>) -> bool {
    sub_find_from(s, p, 0) + p.len() <= s.len()
}

/// Find the first occurrence of `p` in `s`; returns the length of `s`
/// when there is none (note a length result is also returned for an
/// empty `p` found at the very end).
pub fn find_sub(s: &str, p: &str) -> (r: usize)
    ensures
        r == sub_find_from(s@, p@, 0),
        r <= s@.len(),
        r + p@.len() <= s@.len() ==> s@.subrange(r as int, r + p@.len()) == p@,
        forall|j: int| 0 <= j < r && j + p@.len() <= s@.len() ==> #[trigger] s@.subrange(j, j + p@.len()) != p@,
{
    let len = s.unicode_len();
    let plen = p.unicode_len();
    if plen > len {
        proof {
            lemma_sub_find_from(s@, p@, 0);
        }
        return len;
    }
    if plen == 0 {
        assert(s@.subrange(0, 0) =~= p@);
        return 0;
    }
    let last = len - plen;
    let mut i: usize = 0;
    while i <= last
        invariant
            len == s@.len(),
            plen == p@.len(),
            0 < plen <= len,
            last == len - plen,
            i <= last + 1,
            sub_find_from(s@, p@, 0) == sub_find_from(s@, p@, i as int),
            forall|j: int| 0 <= j < i && j + plen <= len ==> #[trigger] s@.subrange(j, j + plen as int) != p@,
        decreases last + 1 - i,
    {
        let piece = s.substring_char(i, i + plen);
        if str_eq(piece, p) {
            assert(s@.subrange(i as int, i + plen) == p@);
            return i;
        }
        assert(s@.subrange(i as int, i + plen) != p@);
        assert(sub_find_from(s@, p@, i as int) == sub_find_from(s@, p@, i as int + 1)) by {
            reveal_with_fuel(sub_find_from, 2);
        };
        i += 1;
    }
    assert(sub_find_from(s@, p@, i as int) == len);
    len
}

pub fn contains_sub(s: &str, p: &str) -> (r: bool)
    ensures
        r == spec_contains_sub(s@, p@),
{
    let i = find_sub(s, p);
    let len = s.unicode_len();
    let plen = p.unicode_len();
    plen <= len && i <= len - plen
}

// ===== Owned copies =====

/// An owned copy of a borrowed string slice.
pub fn own(s: &str) -> (r: String)
    ensures
        r@ == s@,
{
    String::from_str(s)
}

// ===== Splitting =====

/// The pieces of `s` between occurrences of `c`; always at least one
/// piece, and empty pieces are kept.
pub open spec fn spec_split_char(s: Seq<char>, c: char) -> Seq<Seq<char>>
    decreases s.len(),
{
    if s.len() == 0 {
        seq![Seq::<char>::empty()]
    } else if s[0] == c {
        seq![Seq::<char>::empty()] + spec_split_char(s.drop_first(), c)
    } else {
        let rest = spec_split_char(s.drop_first(), c);
        seq![seq![s[0]] + rest[0]] + rest.skip(1)
    }
}

pub proof fn lemma_split_char_len(s: Seq<char>, c: char)
    ensures
        spec_split_char(s, c).len() >= 1,
    decreases s.len(),
{
    if s.len() > 0 {
        lemma_split_char_len(s.drop_first(), c);
    }
}

/// The first piece runs to the first occurrence of `c`; the rest of the
/// pieces split the text after it.
pub proof fn lemma_split_char_first(s: Seq<char>, c: char)
    ensures
        find_from(s, c, 0) == s.len() ==> spec_split_char(s, c) == seq![s],
        find_from(s, c, 0) < s.len() ==> spec_split_char(s, c) == seq![
            s.take(find_from(s, c, 0)),
        ] + spec_split_char(s.skip(find_from(s, c, 0) + 1), c),
    decreases s.len(),
{
    lemma_find_from(s, c, 0);
    let j = find_from(s, c, 0);
    if s.len() == 0 {
        assert(s.take(0) =~= s);
        assert(spec_split_char(s, c) =~~= seq![s]);
    } else if s[0] == c {
        assert(j == 0);
        assert(s.take(0) =~= Seq::<char>::empty());
        assert(s.skip(1) =~= s.drop_first());
        assert(spec_split_char(s, c) =~~= seq![s.take(0)] + spec_split_char(s.skip(1), c));
    } else {
        let d = s.drop_first();
        lemma_split_char_first(d, c);
        lemma_split_char_len(d, c);
        let rest = spec_split_char(d, c);
        // the first occurrence in `s` sits one place to the right of the
        // first occurrence in `d`
        lemma_find_from(d, c, 0);
        let jd = find_from(d, c, 0);
        assert(forall|k: int| 0 <= k < jd + 1 ==> s[k] != c) by {
            assert(forall|k: int| 1 <= k < jd + 1 ==> s[k] == d[k - 1] && d[k - 1] != c);
        }
        if jd == d.len() {
            assert(j == s.len()) by {
                lemma_find_unique(s, c, s.len() as int);
            }
            assert(rest == seq![d]);
            assert(seq![s[0]] + d =~= s);
            assert(rest.skip(1) =~= Seq::<Seq<char>>::empty());
            assert(spec_split_char(s, c) =~~= seq![s]);
        } else {
            assert(d[jd] == c);
            assert(s[jd + 1] == c);
            lemma_find_unique(s, c, jd + 1);
            assert(j == jd + 1);
            assert(rest == seq![d.take(jd)] + spec_split_char(d.skip(jd + 1), c));
            assert(rest[0] == d.take(jd));
            assert(seq![s[0]] + d.take(jd) =~= s.take(j));
            assert(rest.skip(1) =~= spec_split_char(d.skip(jd + 1), c));
            assert(d.skip(jd + 1) =~= s.skip(j + 1));
            assert(spec_split_char(s, c) =~~= seq![s.take(j)] + spec_split_char(s.skip(j + 1), c));
        }
    }
}

/// A position that holds `c` with no occurrence before it is the first.
pub proof fn lemma_find_unique(s: Seq<char>, c: char, k: int)
    requires
        0 <= k <= s.len(),
        k < s.len() ==> s[k] == c,
        forall|j: int| 0 <= j < k ==> s[j] != c,
    ensures
        find_from(s, c, 0) == k,
{
    lemma_find_from(s, c, 0);
    let f = find_from(s, c, 0);
    if f < k {
        assert(s[f] == c);
    } else if k < f {
        assert(k < s.len());
        assert(s[k] != c);
    }
}

/// Split `s` at every occurrence of `c`, keeping empty pieces.
pub fn split_char(s: &str, c: char) -> (r: Vec<String>)
    ensures
        r@.len() == spec_split_char(s@, c).len(),
        forall|k: int| 0 <= k < r@.len() ==> r@[k]@ == spec_split_char(s@, c)[k],
{
    let len = s.unicode_len();
    let ghost pieces = spec_split_char(s@, c);
    let mut parts: Vec<String> = Vec::new();
    let mut start: usize = 0;
    proof {
        assert(s@.skip(0) =~= s@);
    }
    loop
        invariant_except_break
            parts@.len() <= pieces.len(),
            forall|k: int| 0 <= k < parts@.len() ==> parts@[k]@ == pieces[k],
            spec_split_char(s@.skip(start as int), c) =~= pieces.skip(parts@.len() as int),
        invariant
            len == s@.len(),
            start <= len,
            pieces == spec_split_char(s@, c),
        ensures
            parts@.len() == pieces.len(),
            forall|k: int| 0 <= k < parts@.len() ==> parts@[k]@ == pieces[k],
        decreases len - start,
    {
        let ghost n = parts@.len() as int;
        let ghost tail = s@.skip(start as int);
        let j = find_char_from(s, c, start);
        let piece = own(s.substring_char(start, j));
        proof {
            lemma_split_char_len(tail, c);
            lemma_find_unique(tail, c, j - start);
            lemma_split_char_first(tail, c);
            assert(pieces.skip(n)[0] == pieces[n]);
            assert(tail.take(j - start) =~= s@.subrange(start as int, j as int));
        }
        parts.push(piece);
        if j == len {
            proof {
                assert(tail =~= s@.subrange(start as int, len as int));
                assert(spec_split_char(tail, c) == seq![tail]);
                assert(pieces.skip(n) =~= seq![tail]);
                assert(pieces[n] == tail);
                assert(pieces.len() == n + 1);
                assert(piece@ == pieces[n]);
            }
            break;
        }
        proof {
            assert(spec_split_char(tail, c) == seq![tail.take(j - start)] + spec_split_char(
                tail.skip(j - start + 1),
                c,
            ));
            assert(tail.skip(j - start + 1) =~= s@.skip(j + 1));
            assert(pieces[n] == spec_split_char(tail, c)[0]);
            assert(pieces[n] == tail.take(j - start));
            assert(piece@ == pieces[n]);
            assert(spec_split_char(s@.skip(j + 1), c) =~= pieces.skip(n).skip(1));
            assert(pieces.skip(n).skip(1) =~= pieces.skip(n + 1));
            lemma_split_char_len(s@.skip(j + 1), c);
        }
        start = j + 1;
    }
    parts
}

/// The whitespace-separated tokens of `s`; no empty tokens.
pub open spec fn spec_split_ws(s: Seq<char>) -> Seq<Seq<char>>
    decreases s.len(),
{
    if s.len() == 0 {
        Seq::<Seq<char>>::empty()
    } else if is_space(s[0]) {
        spec_split_ws(s.drop_first())
    } else {
        let rest = spec_split_ws(s.drop_first());
        if s.len() > 1 && !is_space(s[1]) {
            seq![seq![s[0]] + rest[0]] + rest.skip(1)
        } else {
            seq![seq![s[0]]] + rest
        }
    }
}

pub proof fn lemma_split_ws_nonempty(s: Seq<char>)
    requires
        s.len() > 0,
        !is_space(s[0]),
    ensures
        spec_split_ws(s).len() >= 1,
    decreases s.len(),
{
    if s.len() > 1 && !is_space(s[1]) {
        lemma_split_ws_nonempty(s.drop_first());
    }
}

/// Dropping one leading space leaves the tokens unchanged.
pub proof fn lemma_split_ws_space(s: Seq<char>)
    requires
        s.len() > 0,
        is_space(s[0]),
    ensures
        spec_split_ws(s) == spec_split_ws(s.skip(1)),
{
    assert(s.drop_first() =~= s.skip(1));
}

/// The first token of a string that starts with a non-space runs to the
/// first whitespace character.
pub proof fn lemma_split_ws_token(s: Seq<char>, j: int)
    requires
        s.len() > 0,
        !is_space(s[0]),
        0 < j <= s.len(),
        forall|i: int| 0 <= i < j ==> !is_space(s[i]),
        j < s.len() ==> is_space(s[j]),
    ensures
        spec_split_ws(s) == seq![s.take(j)] + spec_split_ws(s.skip(j)),
    decreases j,
{
    let d = s.drop_first();
    let rest = spec_split_ws(d);
    if j == 1 {
        if s.len() == 1 {
            assert(seq![s[0]] =~= s.take(1));
            assert(s.skip(1) =~= Seq::<char>::empty());
            assert(spec_split_ws(s) =~~= seq![s.take(j)] + spec_split_ws(s.skip(j)));
        } else {
            assert(is_space(s[1]));
            assert(seq![s[0]] =~= s.take(1));
            assert(d =~= s.skip(1));
            assert(spec_split_ws(s) =~~= seq![s.take(j)] + spec_split_ws(s.skip(j)));
        }
    } else {
        assert(!is_space(s[1]));
        assert(d =~= s.skip(1));
        assert(forall|i: int| 0 <= i < j - 1 ==> d[i] == s[i + 1] && !is_space(s[i + 1]));
        lemma_split_ws_token(d, j - 1);
        lemma_split_ws_nonempty(d);
        assert(rest == seq![d.take(j - 1)] + spec_split_ws(d.skip(j - 1)));
        assert(rest[0] == d.take(j - 1));
        assert(seq![s[0]] + d.take(j - 1) =~= s.take(j));
        assert(rest.skip(1) =~= spec_split_ws(d.skip(j - 1)));
        assert(d.skip(j - 1) =~= s.skip(j));
        assert(spec_split_ws(s) =~~= seq![s.take(j)] + spec_split_ws(s.skip(j)));
    }
}

/// Split `s` into whitespace-separated tokens.
pub fn split_ws(s: &str) -> (r: Vec<String>)
    ensures
        r@.len() == spec_split_ws(s@).len(),
        forall|k: int| 0 <= k < r@.len() ==> r@[k]@ == spec_split_ws(s@)[k],
{
    let len = s.unicode_len();
    let ghost pieces = spec_split_ws(s@);
    let mut parts: Vec<String> = Vec::new();
    let mut i: usize = 0;
    proof {
        assert(s@.skip(0) =~= s@);
    }
    loop
        invariant
            len == s@.len(),
            i <= len,
            pieces == spec_split_ws(s@),
            parts@.len() <= pieces.len(),
            forall|k: int| 0 <= k < parts@.len() ==> parts@[k]@ == pieces[k],
            spec_split_ws(s@.skip(i as int)) =~= pieces.skip(parts@.len() as int),
        ensures
            parts@.len() == pieces.len(),
            forall|k: int| 0 <= k < parts@.len() ==> parts@[k]@ == pieces[k],
        decreases len - i,
    {
        if i == len {
            proof {
                assert(s@.skip(len as int) =~= Seq::<char>::empty());
                assert(pieces.skip(parts@.len() as int) =~= Seq::<Seq<char>>::empty());
            }
            break;
        }
        if space(s.get_char(i)) {
            proof {
                let tail = s@.skip(i as int);
                lemma_split_ws_space(tail);
                assert(tail.skip(1) =~= s@.skip(i + 1));
            }
            i += 1;
        } else {
            let ghost n = parts@.len() as int;
            let ghost tail = s@.skip(i as int);
            let j = find_space_from(s, i);
            let piece = own(s.substring_char(i, j));
            proof {
                assert(forall|k: int| 0 <= k < j - i ==> tail[k] == s@[k + i] && !is_space(
                    s@[k + i],
                ));
                lemma_split_ws_token(tail, j - i);
                lemma_split_ws_nonempty(tail);
                assert(tail.take(j - i) =~= s@.subrange(i as int, j as int));
                assert(tail.skip(j - i) =~= s@.skip(j as int));
                assert(pieces.skip(n)[0] == pieces[n]);
                assert(pieces[n] == spec_split_ws(tail)[0]);
                assert(pieces[n] == tail.take(j - i));
                assert(piece@ == pieces[n]);
                assert(spec_split_ws(s@.skip(j as int)) =~= pieces.skip(n).skip(1));
                assert(pieces.skip(n).skip(1) =~= pieces.skip(n + 1));
            }
            parts.push(piece);
            i = j;
        }
    }
    parts
}

// ===== Decimal rendering =====

/// The decimal digit character for a value below ten.
pub open spec fn dec_digit_char(d: int) -> char {
    if d == 0 {
        '0'
    } else if d == 1 {
        '1'
    } else if d == 2 {
        '2'
    } else if d == 3 {
        '3'
    } else if d == 4 {
        '4'
    } else if d == 5 {
        '5'
    } else if d == 6 {
        '6'
    } else if d == 7 {
        '7'
    } else if d == 8 {
        '8'
    } else {
        '9'
    }
}

/// The decimal rendering of a non-negative number, most significant
/// digit first.
pub open spec fn dec_chars(n: int) -> Seq<char>
    decreases n,
{
    if n < 0 {
        Seq::<char>::empty()
    } else if n < 10 {
        seq![dec_digit_char(n)]
    } else {
        dec_chars(n / 10) + seq![dec_digit_char(n % 10)]
    }
}

/// Append a single decimal digit character.
fn push_digit(out: &mut String, d: u64)
    requires
        d < 10,
    ensures
        final(out)@ == old(out)@ + seq![dec_digit_char(d as int)],
{
    if d == 0 {
        out.append("0");
        proof {
            reveal_strlit("0");
            assert("0"@ =~= seq![dec_digit_char(0)]);
        }
    } else if d == 1 {
        out.append("1");
        proof {
            reveal_strlit("1");
            assert("1"@ =~= seq![dec_digit_char(1)]);
        }
    } else if d == 2 {
        out.append("2");
        proof {
            reveal_strlit("2");
            assert("2"@ =~= seq![dec_digit_char(2)]);
        }
    } else if d == 3 {
        out.append("3");
        proof {
            reveal_strlit("3");
            assert("3"@ =~= seq![dec_digit_char(3)]);
        }
    } else if d == 4 {
        out.append("4");
        proof {
            reveal_strlit("4");
            assert("4"@ =~= seq![dec_digit_char(4)]);
        }
    } else if d == 5 {
        out.append("5");
        proof {
            reveal_strlit("5");
            assert("5"@ =~= seq![dec_digit_char(5)]);
        }
    } else if d == 6 {
        out.append("6");
        proof {
            reveal_strlit("6");
            assert("6"@ =~= seq![dec_digit_char(6)]);
        }
    } else if d == 7 {
        out.append("7");
        proof {
            reveal_strlit("7");
            assert("7"@ =~= seq![dec_digit_char(7)]);
        }
    } else if d == 8 {
        out.append("8");
        proof {
            reveal_strlit("8");
            assert("8"@ =~= seq![dec_digit_char(8)]);
        }
    } else {
        out.append("9");
        proof {
            reveal_strlit("9");
            assert("9"@ =~= seq![dec_digit_char(9)]);
        }
    }
}

/// Render a number in decimal.
pub fn u64_dec(n: u64) -> (r: String)
    ensures
        r@ == dec_chars(n as int),
    decreases n,
{
    if n < 10 {
        let mut s = String::new();
        push_digit(&mut s, n);
        proof {
            assert(Seq::<char>::empty() + seq![dec_digit_char(n as int)] =~= seq![
                dec_digit_char(n as int),
            ]);
        }
        s
    } else {
        let mut s = u64_dec(n / 10);
        push_digit(&mut s, n % 10);
        s
    }
}

} // verus!
