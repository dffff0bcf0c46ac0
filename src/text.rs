//! Scanning primitives over a text held as a sequence of characters.
//!
//! Every position is an index into the whole text, so that a line, a token or
//! a field value is a half-open range `[lo, hi)` of that text.
use vstd::prelude::*;

verus! {

/// The classes of characters that the scanners skip over.
#[derive(Clone, Copy, PartialEq, Eq, Structural, Debug)]
pub enum CharClass {
    /// Blanks that separate tokens.
    Space,
    /// Anything that is not a blank.
    Word,
    /// The delimiters that surround a value: angle brackets and double quotes.
    Delimiter,
}

pub open spec fn is_space(c: char) -> bool {
    c == ' ' || c == '\t' || c == '\r'
}

pub open spec fn is_delimiter(c: char) -> bool {
    c == '<' || c == '>' || c == '"'
}

pub open spec fn in_class(c: char, k: CharClass) -> bool {
    match k {
        CharClass::Space => is_space(c),
        CharClass::Word => !is_space(c),
        CharClass::Delimiter => is_delimiter(c),
    }
}

/// The first position in `[i, hi)` whose character is not of class `k`, or `hi`.
pub open spec fn scan(t: Seq<char>, i: int, hi: int, k: CharClass) -> int
    decreases hi - i,
{
    if i >= hi {
        i
    } else if in_class(t[i], k) {
        scan(t, i + 1, hi, k)
    } else {
        i
    }
}

/// The smallest `j'` in `[lo, j]` such that every character of `[j', j)` is of
/// class `k`.
pub open spec fn scan_back(t: Seq<char>, lo: int, j: int, k: CharClass) -> int
    decreases j - lo,
{
    if j <= lo {
        j
    } else if in_class(t[j - 1], k) {
        scan_back(t, lo, j - 1, k)
    } else {
        j
    }
}

/// The range of the first token that starts at or after `i`, within `[i, hi)`.
pub open spec fn token_at(t: Seq<char>, i: int, hi: int) -> (int, int) {
    let s = scan(t, i, hi, CharClass::Space);
    (s, scan(t, s, hi, CharClass::Word))
}

/// The range of `[i, hi)` left once blanks, then delimiters, are stripped from
/// both of its ends.
pub open spec fn stripped(t: Seq<char>, i: int, hi: int) -> (int, int) {
    let a = scan(t, i, hi, CharClass::Space);
    let z = scan_back(t, a, hi, CharClass::Space);
    let a2 = scan(t, a, z, CharClass::Delimiter);
    (a2, scan_back(t, a2, z, CharClass::Delimiter))
}

pub open spec fn slice(t: Seq<char>, r: (int, int)) -> Seq<char> {
    t.subrange(r.0, r.1)
}

pub open spec fn is_digit(c: char) -> bool {
    '0' as u32 <= c as u32 <= '9' as u32
}

pub open spec fn digit_value(c: char) -> nat {
    (c as u32 - '0' as u32) as nat
}

/// The value of a string of decimal digits, most significant first.
pub open spec fn digits_value(s: Seq<char>) -> nat
    decreases s.len(),
{
    if s.len() == 0 {
        0
    } else {
        10 * digits_value(s.drop_last()) + digit_value(s.last())
    }
}

/// A non-empty run of decimal digits with no sign, whose value fits in `u32`.
pub open spec fn decimal_u32(s: Seq<char>) -> Option<u32> {
    if s.len() > 0 && (forall|i: int| 0 <= i < s.len() ==> is_digit(#[trigger] s[i]))
        && digits_value(s) <= u32::MAX {
        Some(digits_value(s) as u32)
    } else {
        None
    }
}

pub proof fn lemma_scan_bounds(t: Seq<char>, i: int, hi: int, k: CharClass)
    requires
        i <= hi,
    ensures
        i <= scan(t, i, hi, k) <= hi,
        forall|p: int| i <= p < scan(t, i, hi, k) ==> in_class(#[trigger] t[p], k),
        scan(t, i, hi, k) < hi ==> !in_class(t[scan(t, i, hi, k)], k),
    decreases hi - i,
{
    if i < hi && in_class(t[i], k) {
        lemma_scan_bounds(t, i + 1, hi, k);
    }
}

pub proof fn lemma_scan_back_bounds(t: Seq<char>, lo: int, j: int, k: CharClass)
    requires
        lo <= j,
    ensures
        lo <= scan_back(t, lo, j, k) <= j,
        scan_back(t, lo, j, k) > lo ==> !in_class(t[scan_back(t, lo, j, k) - 1], k),
    decreases j - lo,
{
    if lo < j && in_class(t[j - 1], k) {
        lemma_scan_back_bounds(t, lo, j - 1, k);
    }
}

/// A stripped value neither starts nor ends with a delimiter.
pub proof fn lemma_stripped_has_no_delimiters(t: Seq<char>, i: int, hi: int)
    requires
        0 <= i <= hi <= t.len(),
    ensures
        ({
            let v = slice(t, stripped(t, i, hi));
            v.len() > 0 ==> !is_delimiter(v[0]) && !is_delimiter(v.last())
        }),
{
    let a = scan(t, i, hi, CharClass::Space);
    lemma_scan_bounds(t, i, hi, CharClass::Space);
    let z = scan_back(t, a, hi, CharClass::Space);
    lemma_scan_back_bounds(t, a, hi, CharClass::Space);
    let a2 = scan(t, a, z, CharClass::Delimiter);
    lemma_scan_bounds(t, a, z, CharClass::Delimiter);
    let z2 = scan_back(t, a2, z, CharClass::Delimiter);
    lemma_scan_back_bounds(t, a2, z, CharClass::Delimiter);
    let v = t.subrange(a2, z2);
    if v.len() > 0 {
        assert(v[0] == t[a2]);
        assert(v.last() == t[z2 - 1]);
    }
}

proof fn lemma_digits_value_prefix(s: Seq<char>, k: int)
    requires
        0 <= k <= s.len(),
    ensures
        digits_value(s.subrange(0, k)) <= digits_value(s),
    decreases s.len(),
{
    if k < s.len() {
        lemma_digits_value_prefix(s.drop_last(), k);
        assert(s.drop_last().subrange(0, k) =~= s.subrange(0, k));
    } else {
        assert(s.subrange(0, k) =~= s);
    }
}

pub fn char_in_class(c: char, k: CharClass) -> (r: bool)
    ensures
        r == in_class(c, k),
{
    let blank = c == ' ' || c == '\t' || c == '\r';
    match k {
        CharClass::Space => blank,
        CharClass::Word => !blank,
        CharClass::Delimiter => c == '<' || c == '>' || c == '"',
    }
}

/// Skips forward over characters of class `k`.
pub fn scan_forward(t: &Vec<char>, i: usize, hi: usize, k: CharClass) -> (r: usize)
    requires
        i <= hi <= t@.len(),
    ensures
        r as int == scan(t@, i as int, hi as int, k),
        i <= r <= hi,
{
    let mut p: usize = i;
    while p < hi && char_in_class(t[p], k)
        invariant
            i <= p <= hi <= t@.len(),
            scan(t@, p as int, hi as int, k) == scan(t@, i as int, hi as int, k),
        decreases hi - p,
    {
        p = p + 1;
    }
    p
}

/// Skips backward over characters of class `k`, not below `lo`.
pub fn scan_backward(t: &Vec<char>, lo: usize, j: usize, k: CharClass) -> (r: usize)
    requires
        lo <= j <= t@.len(),
    ensures
        r as int == scan_back(t@, lo as int, j as int, k),
        lo <= r <= j,
{
    let mut p: usize = j;
    while p > lo && char_in_class(t[p - 1], k)
        invariant
            lo <= p <= j <= t@.len(),
            scan_back(t@, lo as int, p as int, k) == scan_back(t@, lo as int, j as int, k),
        decreases p - lo,
    {
        p = p - 1;
    }
    p
}

/// The range of the first token at or after `i`.
pub fn next_token(t: &Vec<char>, i: usize, hi: usize) -> (r: (usize, usize))
    requires
        i <= hi <= t@.len(),
    ensures
        (r.0 as int, r.1 as int) == token_at(t@, i as int, hi as int),
        i <= r.0 <= r.1 <= hi,
{
    let s = scan_forward(t, i, hi, CharClass::Space);
    let e = scan_forward(t, s, hi, CharClass::Word);
    (s, e)
}

/// The range of `[i, hi)` without surrounding blanks and delimiters.
pub fn strip_value(t: &Vec<char>, i: usize, hi: usize) -> (r: (usize, usize))
    requires
        i <= hi <= t@.len(),
    ensures
        (r.0 as int, r.1 as int) == stripped(t@, i as int, hi as int),
        i <= r.0 <= r.1 <= hi,
{
    let a = scan_forward(t, i, hi, CharClass::Space);
    let z = scan_backward(t, a, hi, CharClass::Space);
    let a2 = scan_forward(t, a, z, CharClass::Delimiter);
    let z2 = scan_backward(t, a2, z, CharClass::Delimiter);
    (a2, z2)
}

/// Whether the characters of `[lo, hi)` are exactly `word`.
pub fn range_equals(t: &Vec<char>, lo: usize, hi: usize, word: &Vec<char>) -> (r: bool)
    requires
        lo <= hi <= t@.len(),
    ensures
        r == (t@.subrange(lo as int, hi as int) == word@),
{
    if hi - lo != word.len() {
        return false;
    }
    let mut k: usize = 0;
    while k < word.len()
        invariant
            hi - lo == word@.len(),
            lo <= hi <= t@.len(),
            0 <= k <= word@.len(),
            forall|q: int| 0 <= q < k ==> t@[lo + q] == word@[q],
        decreases word@.len() - k,
    {
        if t[lo + k] != word[k] {
            assert(t@.subrange(lo as int, hi as int)[k as int] != word@[k as int]);
            return false;
        }
        k = k + 1;
    }
    assert(t@.subrange(lo as int, hi as int) =~= word@);
    true
}

/// Reads `[lo, hi)` as an unsigned decimal number that fits in `u32`.
pub fn parse_decimal(t: &Vec<char>, lo: usize, hi: usize) -> (r: Option<u32>)
    requires
        lo <= hi <= t@.len(),
    ensures
        r == decimal_u32(t@.subrange(lo as int, hi as int)),
{
    let ghost s = t@.subrange(lo as int, hi as int);
    if lo == hi {
        return None;
    }
    let mut k: usize = lo;
    while k < hi
        invariant
            lo <= k <= hi <= t@.len(),
            s == t@.subrange(lo as int, hi as int),
            forall|q: int| lo <= q < k ==> is_digit(#[trigger] t@[q]),
        decreases hi - k,
    {
        let c = t[k] as u32;
        if !('0' as u32 <= c && c <= '9' as u32) {
            assert(!is_digit(s[k - lo]));
            return None;
        }
        k = k + 1;
    }
    assert forall|q: int| 0 <= q < s.len() implies is_digit(#[trigger] s[q]) by {
        assert(s[q] == t@[lo + q]);
    }
    let mut acc: u64 = 0;
    let mut p: usize = lo;
    while p < hi
        invariant
            lo <= p <= hi <= t@.len(),
            s == t@.subrange(lo as int, hi as int),
            forall|q: int| 0 <= q < s.len() ==> is_digit(#[trigger] s[q]),
            acc as nat == digits_value(s.subrange(0, p - lo)),
            acc <= u32::MAX,
        decreases hi - p,
    {
        let c = t[p];
        assert(s[p - lo] == c);
        assert(is_digit(s[p - lo]));
        let d: u64 = (c as u32 - '0' as u32) as u64;
        assert(s.subrange(0, p + 1 - lo).drop_last() =~= s.subrange(0, p - lo));
        acc = acc * 10 + d;
        if acc > 0xffff_ffff {
            proof {
                lemma_digits_value_prefix(s, p + 1 - lo);
            }
            return None;
        }
        p = p + 1;
    }
    assert(s.subrange(0, hi - lo) =~= s);
    Some(acc as u32)
}

} // verus!
