//! Character-level text helpers: Unicode character classes, UTF-8 widths,
//! trimming, whitespace removal and substring search over `char` sequences.

use vstd::prelude::*;
use vstd::utf8::*;

verus! {

/// The Unicode `White_Space` property, which `char::is_whitespace` reports:
/// tab to carriage return, space, next line, no-break space, ogham space
/// mark, the spaces from en quad to hair space, line and paragraph
/// separators, narrow no-break space, medium mathematical space and
/// ideographic space.
pub open spec fn unicode_whitespace(c: char) -> bool {
    ('\u{9}' <= c && c <= '\u{d}') || c == ' ' || c == '\u{85}' || c == '\u{a0}' || c == '\u{1680}'
        || ('\u{2000}' <= c && c <= '\u{200a}') || c == '\u{2028}' || c == '\u{2029}' || c == '\u{202f}'
        || c == '\u{205f}' || c == '\u{3000}'
}

/// Whether `char::is_alphabetic` holds of a character (Unicode `Alphabetic`).
pub uninterp spec fn unicode_alphabetic(c: char) -> bool;

/// Whether `char::is_numeric` holds of a character (Unicode general categories `Nd`, `Nl`, `No`).
pub uninterp spec fn unicode_numeric(c: char) -> bool;

/// Whether a character is Unicode whitespace, as `char::is_whitespace`.
pub(crate) fn is_whitespace(c: char) -> (r: bool)
    ensures
        r == unicode_whitespace(c),
{
    ('\u{9}' <= c && c <= '\u{d}') || c == ' ' || c == '\u{85}' || c == '\u{a0}' || c == '\u{1680}'
        || ('\u{2000}' <= c && c <= '\u{200a}') || c == '\u{2028}' || c == '\u{2029}' || c == '\u{202f}'
        || c == '\u{205f}' || c == '\u{3000}'
}

/// Calls `char::is_alphabetic`; the result is the Unicode `Alphabetic` property of `c`,
/// which among ASCII characters holds of the letters alone.
#[verifier::external_body]
pub(crate) fn is_alphabetic(c: char) -> (r: bool)
    ensures
        r == unicode_alphabetic(c),
        (c as u32) < 128 ==> (r <==> (('a' <= c && c <= 'z') || ('A' <= c && c <= 'Z'))),
{
    c.is_alphabetic()
}

/// Calls `char::is_numeric`; the result is the Unicode numeric property of `c`,
/// which among ASCII characters holds of the digits alone.
#[verifier::external_body]
pub(crate) fn is_numeric(c: char) -> (r: bool)
    ensures
        r == unicode_numeric(c),
        (c as u32) < 128 ==> (r <==> ('0' <= c && c <= '9')),
{
    c.is_numeric()
}

/// `char::is_alphanumeric` is documented as `is_alphabetic() || is_numeric()`.
pub open spec fn unicode_alphanumeric(c: char) -> bool {
    unicode_alphabetic(c) || unicode_numeric(c)
}

pub fn is_alphanumeric(c: char) -> (r: bool)
    ensures
        r == unicode_alphanumeric(c),
{
    is_alphabetic(c) || is_numeric(c)
}

pub open spec fn is_ascii_digit_spec(c: char) -> bool {
    '0' <= c && c <= '9'
}

pub fn is_ascii_digit(c: char) -> (r: bool)
    ensures
        r == is_ascii_digit_spec(c),
{
    '0' <= c && c <= '9'
}

/// Number of bytes in the UTF-8 encoding of a character.
pub open spec fn char_width(c: char) -> nat {
    let u = c as u32;
    if u <= 0x7F {
        1
    } else if u <= 0x7FF {
        2
    } else if u <= 0xFFFF {
        3
    } else {
        4
    }
}

/// Number of bytes in the UTF-8 encoding of a character sequence.
pub open spec fn utf8_len(s: Seq<char>) -> nat
    decreases s.len(),
{
    if s.len() == 0 {
        0
    } else {
        utf8_len(s.drop_last()) + char_width(s.last())
    }
}

/// Number of UTF-16 code units of a character.
pub open spec fn char_utf16_width(c: char) -> nat {
    if (c as u32) <= 0xFFFF {
        1
    } else {
        2
    }
}

/// Number of UTF-16 code units of a character sequence.
pub open spec fn utf16_len(s: Seq<char>) -> nat
    decreases s.len(),
{
    if s.len() == 0 {
        0
    } else {
        utf16_len(s.drop_last()) + char_utf16_width(s.last())
    }
}

pub fn utf8_width(c: char) -> (w: usize)
    ensures
        w == char_width(c),
        1 <= w <= 4,
{
    let u = c as u32;
    if u <= 0x7F {
        1
    } else if u <= 0x7FF {
        2
    } else if u <= 0xFFFF {
        3
    } else {
        4
    }
}

pub fn utf16_width(c: char) -> (w: usize)
    ensures
        w == char_utf16_width(c),
{
    if (c as u32) <= 0xFFFF {
        1
    } else {
        2
    }
}

pub proof fn lemma_utf8_len_concat(a: Seq<char>, b: Seq<char>)
    ensures
        utf8_len(a + b) == utf8_len(a) + utf8_len(b),
    decreases b.len(),
{
    if b.len() == 0 {
        assert(a + b =~= a);
    } else {
        lemma_utf8_len_concat(a, b.drop_last());
        assert((a + b).drop_last() =~= a + b.drop_last());
    }
}

pub proof fn lemma_utf16_len_concat(a: Seq<char>, b: Seq<char>)
    ensures
        utf16_len(a + b) == utf16_len(a) + utf16_len(b),
    decreases b.len(),
{
    if b.len() == 0 {
        assert(a + b =~= a);
    } else {
        lemma_utf16_len_concat(a, b.drop_last());
        assert((a + b).drop_last() =~= a + b.drop_last());
    }
}

pub proof fn lemma_utf8_len_take(s: Seq<char>, i: int)
    requires
        0 <= i < s.len(),
    ensures
        utf8_len(s.take(i + 1)) == utf8_len(s.take(i)) + char_width(s[i]),
{
    assert(s.take(i + 1).drop_last() =~= s.take(i));
}

pub proof fn lemma_utf8_len_mono(s: Seq<char>, i: int, j: int)
    requires
        0 <= i <= j <= s.len(),
    ensures
        utf8_len(s.take(i)) <= utf8_len(s.take(j)),
        utf8_len(s.take(j)) <= utf8_len(s),
    decreases j - i,
{
    if i < j {
        lemma_utf8_len_take(s, j - 1);
        lemma_utf8_len_mono(s, i, j - 1);
    }
    assert(s.take(s.len() as int) =~= s);
    lemma_utf8_len_concat(s.take(j), s.skip(j));
    assert(s.take(j) + s.skip(j) =~= s);
}

proof fn lemma_encode_len(s: Seq<char>)
    ensures
        encode_utf8(s).len() == utf8_len(s),
    decreases s.len(),
{
    if s.len() > 0 {
        lemma_encode_len(s.drop_first());
        let c = s[0];
        char_is_scalar(c);
        assert(encode_scalar(c as u32).len() == char_width(c));
        assert(encode_utf8(s) == encode_scalar(s[0] as u32) + encode_utf8(s.drop_first()));
        assert(utf8_len(seq![c]) == utf8_len(seq![c].drop_last()) + char_width(c));
        lemma_utf8_len_concat(seq![c], s.drop_first());
        assert(seq![c] + s.drop_first() =~= s);
        assert(seq![c].drop_last() =~= Seq::<char>::empty());
    }
}

/// Byte length of a string: the number of bytes of its UTF-8 encoding.
pub fn byte_len(s: &str) -> (n: usize)
    ensures
        n == utf8_len(s@),
{
    let b = s.as_bytes();
    proof {
        lemma_encode_len(s@);
    }
    b.len()
}

/// Calls `String::push`, which appends one character.
#[verifier::external_body]
pub(crate) fn string_push(s: &mut String, c: char)
    ensures
        final(s)@ == old(s)@.push(c),
{
    s.push(c);
}

/// The characters of a string, in order.
pub fn chars_of(s: &str) -> (v: Vec<char>)
    ensures
        v@ == s@,
{
    let mut v: Vec<char> = Vec::new();
    for c in it: s.chars()
        invariant
            v@ == it.seq().take(it.index() as int),
            it.seq() == s@,
    {
        v.push(c);
    }
    v
}

/// A string holding the characters `s[start..end]`.
pub fn string_from_range(s: &[char], start: usize, end: usize) -> (r: String)
    requires
        start <= end <= s@.len(),
    ensures
        r@ == s@.subrange(start as int, end as int),
{
    let mut r = String::new();
    let mut i = start;
    while i < end
        invariant
            start <= i <= end <= s@.len(),
            r@ == s@.subrange(start as int, i as int),
        decreases end - i,
    {
        string_push(&mut r, s[i]);
        assert(s@.subrange(start as int, i + 1) =~= s@.subrange(start as int, i as int).push(
            s@[i as int],
        ));
        i = i + 1;
    }
    r
}

/// A string holding the characters of `s`.
pub fn string_from_chars(s: &[char]) -> (r: String)
    ensures
        r@ == s@,
{
    let r = string_from_range(s, 0, s.len());
    assert(s@.subrange(0, s@.len() as int) =~= s@);
    r
}

/// Appends the characters of `s` to `out`.
pub fn push_chars(out: &mut Vec<char>, s: &str)
    ensures
        final(out)@ == old(out)@ + s@,
{
    let ghost start = out@;
    for c in it: s.chars()
        invariant
            out@ == start + it.seq().take(it.index() as int),
            it.seq() == s@,
    {
        out.push(c);
    }
    assert(s@.take(s@.len() as int) =~= s@);
}

/// Appends `s[start..end]` to `out`.
pub fn push_range(out: &mut Vec<char>, s: &[char], start: usize, end: usize)
    requires
        start <= end <= s@.len(),
    ensures
        final(out)@ == old(out)@ + s@.subrange(start as int, end as int),
{
    let ghost base = out@;
    let mut i = start;
    while i < end
        invariant
            start <= i <= end <= s@.len(),
            out@ == base + s@.subrange(start as int, i as int),
        decreases end - i,
    {
        out.push(s[i]);
        assert(s@.subrange(start as int, i + 1) =~= s@.subrange(start as int, i as int).push(
            s@[i as int],
        ));
        i = i + 1;
    }
}

/// Whether two character slices are equal.
pub fn chars_eq(a: &[char], b: &[char]) -> (r: bool)
    ensures
        r == (a@ == b@),
{
    if a.len() != b.len() {
        return false;
    }
    let mut i: usize = 0;
    while i < a.len()
        invariant
            a@.len() == b@.len(),
            i <= a@.len(),
            forall|k: int| 0 <= k < i ==> a@[k] == b@[k],
        decreases a@.len() - i,
    {
        if a[i] != b[i] {
            return false;
        }
        i = i + 1;
    }
    assert(a@ =~= b@);
    true
}

/// Whether a character slice equals the characters of a literal.
pub fn eq_lit(a: &[char], lit: &str) -> (r: bool)
    ensures
        r == (a@ == lit@),
{
    let mut i: usize = 0;
    for c in it: lit.chars()
        invariant
            i == it.index(),
            it.seq() == lit@,
            i <= a.len(),
            a@.take(i as int) == lit@.take(i as int),
    {
        if i >= a.len() || a[i] != c {
            proof {
                if i < a.len() {
                    assert(a@[i as int] != lit@[i as int]);
                }
            }
            return false;
        }
        assert(a@.take(i + 1) =~= a@.take(i as int).push(a@[i as int]));
        assert(lit@.take(i + 1) =~= lit@.take(i as int).push(lit@[i as int]));
        i = i + 1;
    }
    proof {
        if i == a.len() {
            assert(a@.take(i as int) =~= a@);
            assert(lit@.take(i as int) =~= lit@);
        } else {
            assert(a@.len() != lit@.len());
        }
    }
    i == a.len()
}

/// Whether two strings hold the same characters.
pub fn str_eq(a: &str, b: &str) -> (r: bool)
    ensures
        r == (a@ == b@),
{
    let av = chars_of(a);
    let bv = chars_of(b);
    chars_eq(av.as_slice(), bv.as_slice())
}

/// Index of the first character of `s` from `i` on that is not whitespace
/// (`s.len()` if there is none).
pub open spec fn skip_ws_from(s: Seq<char>, i: int) -> int
    decreases s.len() - i,
{
    if i < s.len() && unicode_whitespace(s[i]) {
        skip_ws_from(s, i + 1)
    } else {
        i
    }
}

/// One past the last character of `s[..j]` that is not whitespace (`0` if none).
pub open spec fn skip_ws_back(s: Seq<char>, j: int) -> int
    decreases j,
{
    if j > 0 && unicode_whitespace(s[j - 1]) {
        skip_ws_back(s, j - 1)
    } else {
        j
    }
}

/// `str::trim`: removes leading and trailing whitespace.
pub open spec fn trim(s: Seq<char>) -> Seq<char> {
    let a = skip_ws_from(s, 0);
    let b = skip_ws_back(s, s.len() as int);
    if a < b {
        s.subrange(a, b)
    } else {
        Seq::empty()
    }
}

pub proof fn lemma_skip_ws_from(s: Seq<char>, i: int)
    requires
        0 <= i <= s.len(),
    ensures
        i <= skip_ws_from(s, i) <= s.len(),
        forall|k: int| i <= k < skip_ws_from(s, i) ==> unicode_whitespace(#[trigger] s[k]),
        skip_ws_from(s, i) < s.len() ==> !unicode_whitespace(s[skip_ws_from(s, i)]),
    decreases s.len() - i,
{
    if i < s.len() && unicode_whitespace(s[i]) {
        lemma_skip_ws_from(s, i + 1);
    }
}

pub proof fn lemma_skip_ws_back(s: Seq<char>, j: int)
    requires
        0 <= j <= s.len(),
    ensures
        0 <= skip_ws_back(s, j) <= j,
        forall|k: int| skip_ws_back(s, j) <= k < j ==> unicode_whitespace(#[trigger] s[k]),
        skip_ws_back(s, j) > 0 ==> !unicode_whitespace(s[skip_ws_back(s, j) - 1]),
    decreases j,
{
    if j > 0 && unicode_whitespace(s[j - 1]) {
        lemma_skip_ws_back(s, j - 1);
    }
}

/// Bounds `(a, b)` such that `s[a..b]` is `s[lo..hi]` trimmed.
pub fn trim_bounds(s: &[char], lo: usize, hi: usize) -> (r: (usize, usize))
    requires
        lo <= hi <= s@.len(),
    ensures
        lo <= r.0 <= r.1 <= hi,
        s@.subrange(r.0 as int, r.1 as int) == trim(s@.subrange(lo as int, hi as int)),
        r.0 == lo + skip_ws_from(s@.subrange(lo as int, hi as int), 0),
        r.0 < r.1 ==> r.1 == lo + skip_ws_back(
            s@.subrange(lo as int, hi as int),
            (hi - lo) as int,
        ),
{
    let ghost t = s@.subrange(lo as int, hi as int);
    let mut a = lo;
    while a < hi && is_whitespace(s[a])
        invariant
            lo <= a <= hi <= s@.len(),
            t == s@.subrange(lo as int, hi as int),
            skip_ws_from(t, (a - lo) as int) == skip_ws_from(t, 0),
        decreases hi - a,
    {
        assert(t[(a - lo) as int] == s@[a as int]);
        a = a + 1;
    }
    let mut b = hi;
    while b > a && is_whitespace(s[b - 1])
        invariant
            lo <= a <= b <= hi <= s@.len(),
            t == s@.subrange(lo as int, hi as int),
            skip_ws_back(t, (b - lo) as int) == skip_ws_back(t, (hi - lo) as int),
        decreases b,
    {
        assert(t[(b - lo - 1) as int] == s@[b - 1]);
        b = b - 1;
    }
    proof {
        let a0 = skip_ws_from(t, 0);
        let b0 = skip_ws_back(t, t.len() as int);
        lemma_skip_ws_from(t, 0);
        lemma_skip_ws_back(t, t.len() as int);
        if a < hi {
            assert(t[(a - lo) as int] == s@[a as int]);
            assert(skip_ws_from(t, (a - lo) as int) == (a - lo) as int);
        } else {
            assert(skip_ws_from(t, (a - lo) as int) == (a - lo) as int);
        }
        assert(a0 == a - lo);
        if b > a {
            assert(t[(b - lo - 1) as int] == s@[b - 1]);
            assert(skip_ws_back(t, (b - lo) as int) == (b - lo) as int);
            assert(b0 == b - lo);
            assert(s@.subrange(a as int, b as int) =~= t.subrange(a0, b0));
        } else {
            // everything from a on is whitespace, so the back scan stops at or before a
            assert(forall|k: int| a0 <= k < t.len() ==> unicode_whitespace(#[trigger] t[k])) by {
                assert forall|k: int| a0 <= k < t.len() implies unicode_whitespace(#[trigger] t[k]) by {
                    if k >= (b - lo) as int {
                        lemma_skip_ws_back(t, (b - lo) as int);
                    }
                }
            }
            if b0 > a0 {
                assert(!unicode_whitespace(t[b0 - 1]));
            }
            assert(s@.subrange(a as int, b as int) =~= Seq::<char>::empty());
        }
    }
    (a, b)
}

/// `s` trimmed, as a vector.
pub fn trim_chars(s: &[char]) -> (r: Vec<char>)
    ensures
        r@ == trim(s@),
{
    let (a, b) = trim_bounds(s, 0, s.len());
    assert(s@.subrange(0, s@.len() as int) =~= s@);
    let mut r = Vec::new();
    push_range(&mut r, s, a, b);
    assert(r@ =~= s@.subrange(a as int, b as int));
    r
}

/// `s` trimmed, as a string.
pub fn trim_string(s: &[char]) -> (r: String)
    ensures
        r@ == trim(s@),
{
    let (a, b) = trim_bounds(s, 0, s.len());
    assert(s@.subrange(0, s@.len() as int) =~= s@);
    string_from_range(s, a, b)
}

/// `s` with every whitespace character removed (`split_whitespace().collect::<String>()`).
pub open spec fn remove_whitespace(s: Seq<char>) -> Seq<char>
    decreases s.len(),
{
    if s.len() == 0 {
        s
    } else if unicode_whitespace(s.last()) {
        remove_whitespace(s.drop_last())
    } else {
        remove_whitespace(s.drop_last()).push(s.last())
    }
}

pub fn remove_whitespace_chars(s: &[char]) -> (r: Vec<char>)
    ensures
        r@ == remove_whitespace(s@),
{
    let mut r: Vec<char> = Vec::new();
    let mut i: usize = 0;
    while i < s.len()
        invariant
            i <= s@.len(),
            r@ == remove_whitespace(s@.take(i as int)),
        decreases s@.len() - i,
    {
        assert(s@.take(i + 1).drop_last() =~= s@.take(i as int));
        if !is_whitespace(s[i]) {
            r.push(s[i]);
        }
        i = i + 1;
    }
    assert(s@.take(s@.len() as int) =~= s@);
    r
}

/// Whether `p` occurs in `s` at index `k`.
pub open spec fn occurs_at(s: Seq<char>, k: int, p: Seq<char>) -> bool {
    0 <= k && k + p.len() <= s.len() && s.subrange(k, k + p.len()) == p
}

/// Index of the first occurrence of `p` in `s` at or after `from`.
pub open spec fn find_from(s: Seq<char>, p: Seq<char>, from: int) -> Option<int>
    decreases s.len() + 1 - from,
{
    if from < 0 || from + p.len() > s.len() {
        None
    } else if occurs_at(s, from, p) {
        Some(from)
    } else {
        find_from(s, p, from + 1)
    }
}

pub open spec fn find(s: Seq<char>, p: Seq<char>) -> Option<int> {
    find_from(s, p, 0)
}

pub open spec fn contains_seq(s: Seq<char>, p: Seq<char>) -> bool {
    find(s, p) is Some
}

pub fn occurs_at_exec(s: &[char], k: usize, p: &[char]) -> (r: bool)
    ensures
        r == occurs_at(s@, k as int, p@),
{
    if k > s.len() || p.len() > s.len() - k {
        return false;
    }
    let mut i: usize = 0;
    while i < p.len()
        invariant
            k + p@.len() <= s@.len(),
            k + p.len() <= s.len(),
            i <= p@.len(),
            forall|j: int| 0 <= j < i ==> s@[k + j] == p@[j],
        decreases p@.len() - i,
    {
        if s[k + i] != p[i] {
            assert(s@.subrange(k as int, k + p@.len())[i as int] != p@[i as int]);
            return false;
        }
        i = i + 1;
    }
    assert(s@.subrange(k as int, k + p@.len()) =~= p@);
    true
}

pub proof fn lemma_find_from(s: Seq<char>, p: Seq<char>, from: int)
    requires
        0 <= from,
    ensures
        find_from(s, p, from) matches Some(k) ==> from <= k && occurs_at(s, k, p) && forall|j: int|
            from <= j < k ==> !occurs_at(s, j, p),
        find_from(s, p, from) is None ==> forall|j: int| from <= j ==> !occurs_at(s, j, p),
    decreases s.len() + 1 - from,
{
    if from + p.len() > s.len() {
    } else if occurs_at(s, from, p) {
    } else {
        lemma_find_from(s, p, from + 1);
    }
}

/// First occurrence of `p` in `s` at or after `from`.
pub fn find_exec(s: &[char], p: &[char], from: usize) -> (r: Option<usize>)
    ensures
        r matches Some(k) ==> find_from(s@, p@, from as int) == Some(k as int),
        r is None ==> find_from(s@, p@, from as int) is None,
{
    if p.len() > s.len() {
        return None;
    }
    let last = s.len() - p.len();
    let mut k = from;
    while k <= last
        invariant
            from <= k,
            last + p@.len() == s@.len(),
            find_from(s@, p@, from as int) == find_from(s@, p@, k as int),
        decreases last + 1 - k,
    {
        if occurs_at_exec(s, k, p) {
            return Some(k);
        }
        if k == last {
            assert(find_from(s@, p@, k + 1) is None);
            return None;
        }
        k = k + 1;
    }
    assert(find_from(s@, p@, k as int) is None);
    None
}

/// First occurrence of a literal in `s` at or after `from`.
pub fn find_lit(s: &[char], lit: &str, from: usize) -> (r: Option<usize>)
    ensures
        r matches Some(k) ==> find_from(s@, lit@, from as int) == Some(k as int),
        r is None ==> find_from(s@, lit@, from as int) is None,
{
    let p = chars_of(lit);
    find_exec(s, p.as_slice(), from)
}

pub fn starts_with_lit(s: &[char], at: usize, lit: &str) -> (r: bool)
    ensures
        r == occurs_at(s@, at as int, lit@),
{
    let p = chars_of(lit);
    occurs_at_exec(s, at, p.as_slice())
}

/// `str::split_whitespace`: the maximal runs of non-whitespace characters, in order.
pub open spec fn words(s: Seq<char>) -> Seq<Seq<char>>
    decreases s.len(),
{
    if s.len() == 0 {
        Seq::empty()
    } else if unicode_whitespace(s.last()) {
        words(s.drop_last())
    } else if s.len() >= 2 && !unicode_whitespace(s[s.len() - 2]) {
        let w = words(s.drop_last());
        w.update(w.len() - 1, w.last().push(s.last()))
    } else {
        words(s.drop_last()).push(seq![s.last()])
    }
}

pub open spec fn vecs_view(v: Seq<Vec<char>>) -> Seq<Seq<char>> {
    v.map_values(|x: Vec<char>| x@)
}

/// The whitespace-separated words of `s`.
pub fn split_words(s: &[char]) -> (r: Vec<Vec<char>>)
    ensures
        vecs_view(r@) == words(s@),
{
    let mut done: Vec<Vec<char>> = Vec::new();
    let mut cur: Vec<char> = Vec::new();
    let mut in_word = false;
    let mut i: usize = 0;
    while i < s.len()
        invariant
            i <= s@.len(),
            in_word == (i > 0 && !unicode_whitespace(s@[i - 1])),
            !in_word ==> cur@.len() == 0,
            in_word ==> words(s@.take(i as int)) == vecs_view(done@).push(cur@),
            !in_word ==> words(s@.take(i as int)) == vecs_view(done@),
        decreases s@.len() - i,
    {
        let c = s[i];
        let ghost pre = s@.take(i as int);
        proof {
            assert(s@.take(i + 1).drop_last() =~= pre);
            assert(s@.take(i + 1).last() == c);
            if i > 0 {
                assert(s@.take(i + 1)[i - 1] == s@[i - 1]);
            }
        }
        if is_whitespace(c) {
            if in_word {
                proof {
                    assert(vecs_view(done@.push(cur)) =~= vecs_view(done@).push(cur@));
                }
                done.push(cur);
                cur = Vec::new();
            }
            in_word = false;
        } else {
            proof {
                if in_word {
                    let w = words(pre);
                    assert(w.update(w.len() - 1, w.last().push(c)) =~= vecs_view(done@).push(
                        cur@.push(c),
                    ));
                } else {
                    assert(cur@.push(c) =~= seq![c]);
                }
            }
            cur.push(c);
            in_word = true;
        }
        i = i + 1;
    }
    proof {
        assert(s@.take(s@.len() as int) =~= s@);
    }
    if in_word {
        proof {
            assert(vecs_view(done@.push(cur)) =~= vecs_view(done@).push(cur@));
        }
        done.push(cur);
    }
    done
}

/// `s[start..end]` as a vector.
pub fn subrange_vec(s: &[char], start: usize, end: usize) -> (r: Vec<char>)
    requires
        start <= end <= s@.len(),
    ensures
        r@ == s@.subrange(start as int, end as int),
{
    let mut r: Vec<char> = Vec::new();
    push_range(&mut r, s, start, end);
    assert(r@ =~= s@.subrange(start as int, end as int));
    r
}

/// `Some(rest)` when `s` starts with `p` (`str::strip_prefix`).
pub open spec fn strip_prefix_spec(s: Seq<char>, p: Seq<char>) -> Option<Seq<char>> {
    if occurs_at(s, 0, p) {
        Some(s.subrange(p.len() as int, s.len() as int))
    } else {
        None
    }
}

pub fn strip_prefix_lit(s: &[char], lit: &str) -> (r: Option<Vec<char>>)
    ensures
        match r {
            Some(v) => strip_prefix_spec(s@, lit@) == Some(v@),
            None => strip_prefix_spec(s@, lit@) is None,
        },
{
    let p = chars_of(lit);
    if occurs_at_exec(s, 0, p.as_slice()) {
        Some(subrange_vec(s, p.len(), s.len()))
    } else {
        None
    }
}

/// `s` without its leading run of `c` (`str::trim_start_matches` with a character).
pub open spec fn skip_char(s: Seq<char>, c: char) -> Seq<char>
    decreases s.len(),
{
    if s.len() > 0 && s[0] == c {
        skip_char(s.drop_first(), c)
    } else {
        s
    }
}

pub fn skip_char_vec(s: &[char], c: char) -> (r: Vec<char>)
    ensures
        r@ == skip_char(s@, c),
{
    let mut i: usize = 0;
    assert(s@.subrange(0, s@.len() as int) =~= s@);
    while i < s.len() && s[i] == c
        invariant
            i <= s@.len(),
            skip_char(s@, c) == skip_char(s@.subrange(i as int, s@.len() as int), c),
        decreases s@.len() - i,
    {
        assert(s@.subrange(i as int, s@.len() as int).drop_first() =~= s@.subrange(
            i + 1,
            s@.len() as int,
        ));
        i = i + 1;
    }
    subrange_vec(s, i, s.len())
}

/// Index of the last `c` in `s` (`str::rfind` with a character).
pub open spec fn last_index_of(s: Seq<char>, c: char) -> Option<int>
    decreases s.len(),
{
    if s.len() == 0 {
        None
    } else if s.last() == c {
        Some(s.len() - 1)
    } else {
        last_index_of(s.drop_last(), c)
    }
}

pub fn last_index_of_exec(s: &[char], c: char) -> (r: Option<usize>)
    ensures
        match r {
            Some(k) => last_index_of(s@, c) == Some(k as int),
            None => last_index_of(s@, c) is None,
        },
{
    let mut i = s.len();
    assert(s@.take(s@.len() as int) =~= s@);
    while i > 0
        invariant
            i <= s@.len(),
            last_index_of(s@, c) == last_index_of(s@.take(i as int), c),
        decreases i,
    {
        assert(s@.take(i as int).drop_last() =~= s@.take(i - 1));
        if s[i - 1] == c {
            return Some(i - 1);
        }
        i = i - 1;
    }
    None
}

/// The parts joined with `sep` between consecutive parts.
pub open spec fn join(parts: Seq<Seq<char>>, sep: Seq<char>) -> Seq<char>
    decreases parts.len(),
{
    if parts.len() == 0 {
        Seq::empty()
    } else if parts.len() == 1 {
        parts[0]
    } else {
        join(parts.drop_last(), sep) + sep + parts.last()
    }
}

/// Appends the parts joined with `sep` to `out`.
pub fn join_labels(parts: &Vec<Vec<char>>, sep: &str, out: &mut Vec<char>)
    ensures
        final(out)@ == old(out)@ + join(parts@.map_values(|v: Vec<char>| v@), sep@),
{
    let ghost pv = parts@.map_values(|v: Vec<char>| v@);
    let ghost base = out@;
    let mut i: usize = 0;
    while i < parts.len()
        invariant
            i <= parts@.len(),
            pv == parts@.map_values(|v: Vec<char>| v@),
            out@ == base + join(pv.take(i as int), sep@),
        decreases parts@.len() - i,
    {
        if i > 0 {
            push_chars(out, sep);
        }
        push_range(out, parts[i].as_slice(), 0, parts[i].len());
        proof {
            assert(parts@[i as int]@.subrange(0, parts@[i as int]@.len() as int) =~= parts@[i as int]@);
            assert(pv.take(i + 1).drop_last() =~= pv.take(i as int));
            if i == 0 {
                assert(join(pv.take(0), sep@) =~= Seq::<char>::empty());
                assert(out@ =~= base + join(pv.take(1), sep@));
            } else {
                assert(out@ =~= base + join(pv.take(i + 1), sep@));
            }
        }
        i = i + 1;
    }
    assert(pv.take(parts@.len() as int) =~= pv);
}

/// Words separated by single spaces (`split_whitespace` joined by `" "`).
pub open spec fn collapse_whitespace(s: Seq<char>) -> Seq<char> {
    join(words(s), " "@)
}

pub proof fn lemma_join_push(w: Seq<Seq<char>>, x: Seq<char>, sep: Seq<char>)
    ensures
        w.len() == 0 ==> join(w.push(x), sep) == x,
        w.len() > 0 ==> join(w.push(x), sep) == join(w, sep) + sep + x,
{
    assert(w.push(x).drop_last() =~= w);
    if w.len() == 0 {
        assert(w.push(x)[0] == x);
    }
}

pub proof fn lemma_join_update_last(w: Seq<Seq<char>>, y: Seq<char>, sep: Seq<char>)
    requires
        w.len() > 0,
    ensures
        join(w.update(w.len() - 1, y), sep).len() == join(w, sep).len() - w.last().len() + y.len(),
{
    let u = w.update(w.len() - 1, y);
    if w.len() > 1 {
        assert(u.drop_last() =~= w.drop_last());
    }
}

proof fn lemma_words_nonempty(s: Seq<char>)
    requires
        s.len() > 0,
        !unicode_whitespace(s.last()),
    ensures
        words(s).len() > 0,
    decreases s.len(),
{
    if s.len() >= 2 && !unicode_whitespace(s[s.len() - 2]) {
        lemma_words_nonempty(s.drop_last());
    }
}

/// Collapsing whitespace never lengthens a text.
pub proof fn lemma_collapse_len(s: Seq<char>)
    ensures
        collapse_whitespace(s).len() <= s.len(),
    decreases s.len(),
{
    reveal_strlit(" ");
    if s.len() == 0 {
    } else if unicode_whitespace(s.last()) {
        lemma_collapse_len(s.drop_last());
    } else if s.len() >= 2 && !unicode_whitespace(s[s.len() - 2]) {
        let t = s.drop_last();
        lemma_collapse_len(t);
        lemma_words_nonempty(t);
        let w = words(t);
        lemma_join_update_last(w, w.last().push(s.last()), " "@);
    } else {
        let t = s.drop_last();
        let w = words(t);
        if s.len() >= 2 {
            let u = t.drop_last();
            assert(t.last() == s[s.len() - 2]);
            assert(words(t) == words(u));
            lemma_collapse_len(u);
        }
        lemma_join_push(w, seq![s.last()], " "@);
    }
}

/// `split_whitespace` joined by single spaces.
pub fn collapse_whitespace_exec(s: &[char]) -> (r: Vec<char>)
    ensures
        r@ == collapse_whitespace(s@),
{
    let ws = split_words(s);
    let mut out: Vec<char> = Vec::new();
    join_labels(&ws, " ", &mut out);
    assert(out@ =~= collapse_whitespace(s@));
    out
}

pub proof fn lemma_last_index_of(s: Seq<char>, c: char)
    ensures
        last_index_of(s, c) matches Some(k) ==> 0 <= k < s.len() && s[k] == c && forall|j: int|
            k < j < s.len() ==> s[j] != c,
        last_index_of(s, c) is None ==> forall|j: int| 0 <= j < s.len() ==> s[j] != c,
    decreases s.len(),
{
    if s.len() > 0 && s.last() != c {
        let t = s.drop_last();
        lemma_last_index_of(t, c);
        assert forall|j: int| 0 <= j < t.len() implies t[j] == s[j] by {}
    }
}

pub proof fn lemma_trim_len(s: Seq<char>)
    ensures
        trim(s).len() <= s.len(),
{
    lemma_skip_ws_from(s, 0);
    lemma_skip_ws_back(s, s.len() as int);
}

/// Trimming twice is trimming once.
pub proof fn lemma_trim_idempotent(s: Seq<char>)
    ensures
        trim(trim(s)) == trim(s),
{
    lemma_skip_ws_from(s, 0);
    lemma_skip_ws_back(s, s.len() as int);
    let t = trim(s);
    if t.len() == 0 {
        assert(trim(t) =~= t);
    } else {
        let a = skip_ws_from(s, 0);
        let b = skip_ws_back(s, s.len() as int);
        assert(t[0] == s[a]);
        assert(t[t.len() - 1] == s[b - 1]);
        assert(skip_ws_from(t, 0) == 0);
        assert(skip_ws_back(t, t.len() as int) == t.len());
        assert(trim(t) =~= t);
    }
}

/// `a`, `b` and `c` one after the other, as a string.
pub fn join3(a: &str, b: &[char], c: &str) -> (r: String)
    ensures
        r@ == a@ + b@ + c@,
{
    let mut out: Vec<char> = Vec::new();
    push_chars(&mut out, a);
    push_range(&mut out, b, 0, b.len());
    push_chars(&mut out, c);
    assert(b@.subrange(0, b@.len() as int) =~= b@);
    string_from_chars(out.as_slice())
}

/// `a` to `e` one after the other, as a string.
pub fn join5(a: &str, b: &[char], c: &str, d: &[char], e: &str) -> (r: String)
    ensures
        r@ == a@ + b@ + c@ + d@ + e@,
{
    let mut out: Vec<char> = Vec::new();
    push_chars(&mut out, a);
    push_range(&mut out, b, 0, b.len());
    push_chars(&mut out, c);
    push_range(&mut out, d, 0, d.len());
    push_chars(&mut out, e);
    assert(b@.subrange(0, b@.len() as int) =~= b@);
    assert(d@.subrange(0, d@.len() as int) =~= d@);
    string_from_chars(out.as_slice())
}

} // verus!
