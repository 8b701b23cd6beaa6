//! Shared unit-label normalization helpers.
//!
//! These helpers canonicalize the syntactic unit labels used by the finite
//! solver, catalog decoder, and compiler checks. Equivalence checks are
//! dimension-aware, but they do not scale magnitudes.

use vstd::prelude::*;
#[allow(unused_imports)]
use crate::text::{
    join, join_labels, occurs_at, chars_of, eq_lit, is_whitespace, push_chars, push_range, remove_whitespace,
    remove_whitespace_chars, string_from_chars, string_from_range, trim, trim_bounds,
    unicode_whitespace,
};

verus! {

// ---------------------------------------------------------------------------
// Whitespace and integers
// ---------------------------------------------------------------------------

/// Removes insignificant whitespace from a unit expression.
pub fn normalize_unit_text(text: &str) -> (r: String)
    ensures
        r@ == remove_whitespace(text@),
{
    let cs = chars_of(text);
    let v = remove_whitespace_chars(cs.as_slice());
    string_from_chars(v.as_slice())
}

pub open spec fn digit_value(c: char) -> int {
    (c as u32) - ('0' as u32)
}

/// Value of a sequence of ASCII digits.
pub open spec fn digits_value(s: Seq<char>) -> int
    decreases s.len(),
{
    if s.len() == 0 {
        0
    } else {
        digits_value(s.drop_last()) * 10 + digit_value(s.last())
    }
}

pub open spec fn all_digits(s: Seq<char>) -> bool {
    forall|i: int| 0 <= i < s.len() ==> '0' <= #[trigger] s[i] && s[i] <= '9'
}

/// What `str::parse::<i32>` gives: an optional sign, then at least one ASCII
/// digit, with the value in the range of `i32`.
pub open spec fn parse_i32_spec(s: Seq<char>) -> Option<int> {
    let neg = s.len() > 0 && s[0] == '-';
    let signed = s.len() > 0 && (s[0] == '-' || s[0] == '+');
    let digits = if signed {
        s.drop_first()
    } else {
        s
    };
    if digits.len() == 0 || !all_digits(digits) {
        None
    } else {
        let v = if neg {
            -digits_value(digits)
        } else {
            digits_value(digits)
        };
        if i32::MIN <= v <= i32::MAX {
            Some(v)
        } else {
            None
        }
    }
}

proof fn lemma_digits_value_nonneg(s: Seq<char>)
    requires
        all_digits(s),
    ensures
        digits_value(s) >= 0,
        s.len() > 0 ==> digits_value(s) >= digits_value(s.drop_last()) * 10,
    decreases s.len(),
{
    if s.len() > 0 {
        assert(all_digits(s.drop_last()));
        lemma_digits_value_nonneg(s.drop_last());
    }
}

/// Parses a decimal `i32`, as `str::parse::<i32>` does.
fn parse_i32(s: &[char]) -> (r: Option<i32>)
    ensures
        match r {
            Some(v) => parse_i32_spec(s@) == Some(v as int),
            None => parse_i32_spec(s@) is None,
        },
{
    let n = s.len();
    if n == 0 {
        return None;
    }
    let neg = s[0] == '-';
    let start: usize = if s[0] == '-' || s[0] == '+' {
        1
    } else {
        0
    };
    let ghost digits = s@.subrange(start as int, n as int);
    proof {
        if start == 1 {
            assert(digits =~= s@.drop_first());
        } else {
            assert(digits =~= s@);
        }
    }
    if start == n {
        return None;
    }
    let mut value: i64 = 0;
    let mut i = start;
    while i < n
        invariant
            start <= i <= n == s@.len(),
            digits == s@.subrange(start as int, n as int),
            all_digits(s@.subrange(start as int, i as int)),
            (if s@.len() > 0 && (s@[0] == '-' || s@[0] == '+') { s@.drop_first() } else { s@ }) == digits,
            digits.len() > 0,
            value == digits_value(s@.subrange(start as int, i as int)),
            0 <= value <= 0x8000_0000,
        decreases n - i,
    {
        let c = s[i];
        if !('0' <= c && c <= '9') {
            assert(digits[(i - start) as int] == c);
            return None;
        }
        proof {
            assert(s@.subrange(start as int, i + 1).drop_last() =~= s@.subrange(start as int, i as int));
            assert(all_digits(s@.subrange(start as int, i + 1)));
        }
        let d = (c as u32 - '0' as u32) as i64;
        value = value * 10 + d;
        if value > 0x8000_0000 {
            // every further digit keeps the value above the range
            proof {
                lemma_digits_tail_large(s@, start as int, i + 1, n as int);
                assert(i + 1 <= n);
            }
            return None;
        }
        i = i + 1;
    }
    assert(s@.subrange(start as int, i as int) =~= digits);
    proof {
        assert(digits_value(digits) == value);
        assert(all_digits(digits));
        assert(digits.len() > 0);
        assert(neg == (s@.len() > 0 && s@[0] == '-'));
    }
    if neg {
        let v = -value;
        if v < i32::MIN as i64 {
            proof {
                let sd = if s@.len() > 0 && (s@[0] == '-' || s@[0] == '+') { s@.drop_first() } else { s@ };
                assert(sd == digits);
                assert(-digits_value(sd) < i32::MIN);
            }
            return None;
        }
        Some(v as i32)
    } else {
        if value > i32::MAX as i64 {
            proof {
                let sd = if s@.len() > 0 && (s@[0] == '-' || s@[0] == '+') { s@.drop_first() } else { s@ };
                assert(sd == digits);
                assert(digits_value(sd) > i32::MAX);
            }
            return None;
        }
        Some(value as i32)
    }
}

proof fn lemma_digits_tail_large(s: Seq<char>, start: int, i: int, n: int)
    requires
        0 <= start < i <= n <= s.len(),
        all_digits(s.subrange(start, i)),
        digits_value(s.subrange(start, i)) > 0x8000_0000,
    ensures
        all_digits(s.subrange(start, n)) ==> digits_value(s.subrange(start, n)) > 0x8000_0000,
    decreases n - i,
{
    if i < n && all_digits(s.subrange(start, n)) {
        assert(all_digits(s.subrange(start, i + 1)));
        assert(s.subrange(start, i + 1).drop_last() =~= s.subrange(start, i));
        lemma_digits_value_nonneg(s.subrange(start, i + 1));
        lemma_digits_tail_large(s, start, i + 1, n);
    }
}

/// Decimal digits of a natural number, most significant first.
pub open spec fn decimal(n: nat) -> Seq<char>
    decreases n,
{
    if n < 10 {
        seq![(('0' as u32) + n) as char]
    } else {
        decimal(n / 10).push((('0' as u32) + (n % 10)) as char)
    }
}

fn decimal_exec(n: u128) -> (r: Vec<char>)
    ensures
        r@ == decimal(n as nat),
    decreases n,
{
    if n < 10 {
        let c = char_of_digit(n as u32);
        let mut v = Vec::new();
        v.push(c);
        v
    } else {
        let mut v = decimal_exec(n / 10);
        v.push(char_of_digit((n % 10) as u32));
        v
    }
}

fn char_of_digit(d: u32) -> (c: char)
    requires
        d < 10,
    ensures
        c == (('0' as u32) + d) as char,
{
    if d == 0 {
        '0'
    } else if d == 1 {
        '1'
    } else if d == 2 {
        '2'
    } else if d == 3 {
        '3'
    } else if d == 4 {
        '4'
    } else if d == 5 {
        '5'
    } else if d == 6 {
        '6'
    } else if d == 7 {
        '7'
    } else if d == 8 {
        '8'
    } else {
        '9'
    }
}

/// Decimal text of an integer, with a leading `-` when it is negative.
pub open spec fn int_text(v: int) -> Seq<char> {
    if v < 0 {
        seq!['-'] + decimal((-v) as nat)
    } else {
        decimal(v as nat)
    }
}

fn int_text_exec(v: i128) -> (r: Vec<char>)
    requires
        v > i128::MIN,
    ensures
        r@ == int_text(v as int),
{
    if v < 0 {
        let mut out = Vec::new();
        out.push('-');
        let d = decimal_exec((-v) as u128);
        let mut k: usize = 0;
        while k < d.len()
            invariant
                k <= d@.len(),
                out@ == seq!['-'] + d@.take(k as int),
            decreases d@.len() - k,
        {
            out.push(d[k]);
            assert(d@.take(k + 1) =~= d@.take(k as int).push(d@[k as int]));
            k = k + 1;
        }
        assert(d@.take(d@.len() as int) =~= d@);
        out
    } else {
        decimal_exec(v as u128)
    }
}

// ---------------------------------------------------------------------------
// Superscript exponents
// ---------------------------------------------------------------------------

/// The ASCII digit a superscript digit stands for.
pub open spec fn superscript_digit_spec(c: char) -> Option<char> {
    if c == '⁰' {
        Some('0')
    } else if c == '¹' {
        Some('1')
    } else if c == '²' {
        Some('2')
    } else if c == '³' {
        Some('3')
    } else if c == '⁴' {
        Some('4')
    } else if c == '⁵' {
        Some('5')
    } else if c == '⁶' {
        Some('6')
    } else if c == '⁷' {
        Some('7')
    } else if c == '⁸' {
        Some('8')
    } else if c == '⁹' {
        Some('9')
    } else {
        None
    }
}

pub fn superscript_digit(c: char) -> (r: Option<char>)
    ensures
        r == superscript_digit_spec(c),
{
    if c == '⁰' {
        Some('0')
    } else if c == '¹' {
        Some('1')
    } else if c == '²' {
        Some('2')
    } else if c == '³' {
        Some('3')
    } else if c == '⁴' {
        Some('4')
    } else if c == '⁵' {
        Some('5')
    } else if c == '⁶' {
        Some('6')
    } else if c == '⁷' {
        Some('7')
    } else if c == '⁸' {
        Some('8')
    } else if c == '⁹' {
        Some('9')
    } else {
        None
    }
}

/// Start of the run of superscript digits that ends `s[..j]`.
pub open spec fn superscript_start(s: Seq<char>, j: int) -> int
    decreases j,
{
    if j > 0 && j <= s.len() && superscript_digit_spec(s[j - 1]) is Some {
        superscript_start(s, j - 1)
    } else {
        j
    }
}

/// ASCII digits of the superscript digits `s[a..b]`.
pub open spec fn ascii_of_superscripts(s: Seq<char>, a: int, b: int) -> Seq<char>
    decreases b - a,
{
    if b <= a {
        Seq::empty()
    } else {
        ascii_of_superscripts(s, a, b - 1).push(superscript_digit_spec(s[b - 1]).unwrap())
    }
}

pub proof fn lemma_superscript_start(s: Seq<char>, j: int)
    requires
        0 <= j <= s.len(),
    ensures
        0 <= superscript_start(s, j) <= j,
    decreases j,
{
    if j > 0 && superscript_digit_spec(s[j - 1]) is Some {
        lemma_superscript_start(s, j - 1);
    }
}

/// Superscript exponent of the token `s`: the base before a non-empty run of
/// trailing superscript digits, and the value of those digits.
pub open spec fn split_superscript_spec(s: Seq<char>) -> Option<(Seq<char>, int)> {
    let a = superscript_start(s, s.len() as int);
    if a == s.len() || a == 0 {
        None
    } else {
        match parse_i32_spec(ascii_of_superscripts(s, a, s.len() as int)) {
            Some(e) => Some((s.subrange(0, a), e)),
            None => None,
        }
    }
}

/// Digits of the trailing superscript run of `s[..end]` and where it starts.
pub(crate) fn superscript_suffix(s: &[char], end: usize) -> (r: (usize, Vec<char>))
    requires
        end <= s@.len(),
    ensures
        r.0 as int == superscript_start(s@, end as int),
        r.1@ == ascii_of_superscripts(s@, r.0 as int, end as int),
{
    let mut a = end;
    while a > 0 && superscript_digit(s[a - 1]).is_some()
        invariant
            a <= end <= s@.len(),
            superscript_start(s@, a as int) == superscript_start(s@, end as int),
            forall|k: int| a <= k < end ==> superscript_digit_spec(#[trigger] s@[k]) is Some,
        decreases a,
    {
        a = a - 1;
    }
    let mut digits: Vec<char> = Vec::new();
    let mut k = a;
    while k < end
        invariant
            a <= k <= end <= s@.len(),
            forall|j: int| a <= j < end ==> superscript_digit_spec(#[trigger] s@[j]) is Some,
            digits@ == ascii_of_superscripts(s@, a as int, k as int),
        decreases end - k,
    {
        let d = superscript_digit(s[k]);
        match d {
            Some(c) => {
                digits.push(c);
            },
            None => {
                assert(false);
            },
        }
        k = k + 1;
    }
    (a, digits)
}

fn split_superscript_unit(token: &[char]) -> (r: Option<(Vec<char>, i32)>)
    ensures
        match r {
            Some((b, e)) => split_superscript_spec(token@) == Some((b@, e as int)),
            None => split_superscript_spec(token@) is None,
        },
{
    let (a, digits) = superscript_suffix(token, token.len());
    proof {
        lemma_superscript_start(token@, token@.len() as int);
    }
    if a == token.len() || a == 0 {
        return None;
    }
    match parse_i32(digits.as_slice()) {
        Some(e) => {
            let mut base: Vec<char> = Vec::new();
            push_range(&mut base, token, 0, a);
            assert(base@ =~= token@.subrange(0, a as int));
            Some((base, e))
        },
        None => None,
    }
}

// ---------------------------------------------------------------------------
// Factor tables
// ---------------------------------------------------------------------------

/// Which table turns a unit atom into base factors.
#[derive(Clone, Copy, PartialEq, Eq, Structural)]
pub enum AtomTable {
    /// Keeps every atom as written (only `$` becomes `USD`).
    Label,
    /// Expands derived and scaled units into SI base dimensions.
    Dimension,
}

pub open spec fn f1(a: Seq<char>) -> Seq<(Seq<char>, int)> {
    seq![(a, 1)]
}

/// Base factors of an atom in the dimension table.
pub open spec fn dimension_factors_spec(t: Seq<char>) -> Seq<(Seq<char>, int)> {
    if t == "$"@ {
        seq![("USD"@, 1)]
    } else if t == "km"@ {
        seq![("m"@, 1)]
    } else if t == "N"@ {
        seq![("kg"@, 1), ("m"@, 1), ("s"@, -2)]
    } else if t == "Nm"@ || t == "J"@ || t == "kJ"@ || t == "Wh"@ || t == "kWh"@ {
        seq![("kg"@, 1), ("m"@, 2), ("s"@, -2)]
    } else if t == "W"@ {
        seq![("kg"@, 1), ("m"@, 2), ("s"@, -3)]
    } else if t == "Hz"@ || t == "Bq"@ {
        seq![("s"@, -1)]
    } else if t == "Pa"@ {
        seq![("kg"@, 1), ("m"@, -1), ("s"@, -2)]
    } else if t == "C"@ {
        seq![("A"@, 1), ("s"@, 1)]
    } else if t == "V"@ {
        seq![("kg"@, 1), ("m"@, 2), ("s"@, -3), ("A"@, -1)]
    } else if t == "F"@ {
        seq![("kg"@, -1), ("m"@, -2), ("s"@, 4), ("A"@, 2)]
    } else if t == "Ω"@ || t == "Ohm"@ || t == "ohm"@ {
        seq![("kg"@, 1), ("m"@, 2), ("s"@, -3), ("A"@, -2)]
    } else if t == "S"@ {
        seq![("kg"@, -1), ("m"@, -2), ("s"@, 3), ("A"@, 2)]
    } else if t == "Wb"@ {
        seq![("kg"@, 1), ("m"@, 2), ("s"@, -2), ("A"@, -1)]
    } else if t == "T"@ {
        seq![("kg"@, 1), ("s"@, -2), ("A"@, -1)]
    } else if t == "H"@ {
        seq![("kg"@, 1), ("m"@, 2), ("s"@, -2), ("A"@, -2)]
    } else if t == "lm"@ {
        seq![("cd"@, 1)]
    } else if t == "lx"@ {
        seq![("cd"@, 1), ("m"@, -2)]
    } else if t == "Gy"@ || t == "Sv"@ {
        seq![("m"@, 2), ("s"@, -2)]
    } else if t == "kat"@ {
        seq![("mol"@, 1), ("s"@, -1)]
    } else if t == "g"@ || t == "mg"@ {
        seq![("kg"@, 1)]
    } else if t == "deg"@ || t == "degree"@ || t == "degrees"@ || t == "°"@ {
        seq![("rad"@, 1)]
    } else if t == "h"@ || t == "hr"@ || t == "hour"@ || t == "hours"@ || t == "min"@ || t
        == "minute"@ || t == "minutes"@ {
        seq![("s"@, 1)]
    } else {
        seq![(t, 1)]
    }
}

/// Base factors of an atom: the trimmed atom, looked up in the table.
pub open spec fn atom_factors_spec(table: AtomTable, atom: Seq<char>) -> Seq<(Seq<char>, int)> {
    let t = trim(atom);
    match table {
        AtomTable::Label => if t == "$"@ {
            seq![("USD"@, 1)]
        } else {
            seq![(t, 1)]
        },
        AtomTable::Dimension => dimension_factors_spec(t),
    }
}

pub open spec fn factors_view(v: Seq<(Vec<char>, i128)>) -> Seq<(Seq<char>, int)> {
    v.map_values(|p: (Vec<char>, i128)| (p.0@, p.1 as int))
}

fn lit_vec(s: &str) -> (r: Vec<char>)
    ensures
        r@ == s@,
{
    chars_of(s)
}

pub open spec fn small_exponents(v: Seq<(Vec<char>, i128)>) -> bool {
    forall|k: int| 0 <= k < v.len() ==> -4 <= #[trigger] v[k].1 <= 4
}

fn fac(out: &mut Vec<(Vec<char>, i128)>, s: &str, e: i128)
    requires
        small_exponents(old(out)@),
        -4 <= e <= 4,
        old(out)@.len() < 4,
    ensures
        factors_view(final(out)@) == factors_view(old(out)@).push((s@, e as int)),
        small_exponents(final(out)@),
        final(out)@.len() == old(out)@.len() + 1,
{
    let v = lit_vec(s);
    let ghost before = factors_view(out@);
    out.push((v, e));
    assert(factors_view(out@) =~= before.push((s@, e as int)));
}

fn label_unit_atom_factors(atom: &[char]) -> (r: Vec<(Vec<char>, i128)>)
    ensures
        factors_view(r@) == atom_factors_spec(AtomTable::Label, atom@),
        small_exponents(r@),
        r@.len() <= 4,
{
    let (a, b) = trim_bounds(atom, 0, atom.len());
    assert(atom@.subrange(0, atom@.len() as int) =~= atom@);
    let mut t: Vec<char> = Vec::new();
    push_range(&mut t, atom, a, b);
    assert(t@ =~= trim(atom@));
    let mut out: Vec<(Vec<char>, i128)> = Vec::new();
    assert(factors_view(out@) =~= Seq::<(Seq<char>, int)>::empty());
    if eq_lit(t.as_slice(), "$") {
        fac(&mut out, "USD", 1);
    } else {
        out.push((t, 1));
    }
    assert(factors_view(out@) =~= atom_factors_spec(AtomTable::Label, atom@));
    out
}

fn dimension_unit_atom_factors(atom: &[char]) -> (r: Vec<(Vec<char>, i128)>)
    ensures
        factors_view(r@) == atom_factors_spec(AtomTable::Dimension, atom@),
        small_exponents(r@),
        r@.len() <= 4,
{
    let (a, b) = trim_bounds(atom, 0, atom.len());
    assert(atom@.subrange(0, atom@.len() as int) =~= atom@);
    let mut t0: Vec<char> = Vec::new();
    push_range(&mut t0, atom, a, b);
    assert(t0@ =~= trim(atom@));
    let t = t0.as_slice();
    let mut out: Vec<(Vec<char>, i128)> = Vec::new();
    assert(factors_view(out@) =~= Seq::<(Seq<char>, int)>::empty());
    if eq_lit(t, "$") {
        fac(&mut out, "USD", 1);
    } else if eq_lit(t, "km") {
        fac(&mut out, "m", 1);
    } else if eq_lit(t, "N") {
        fac(&mut out, "kg", 1);
        fac(&mut out, "m", 1);
        fac(&mut out, "s", -2);
    } else if eq_lit(t, "Nm") || eq_lit(t, "J") || eq_lit(t, "kJ") || eq_lit(t, "Wh") || eq_lit(
        t,
        "kWh",
    ) {
        fac(&mut out, "kg", 1);
        fac(&mut out, "m", 2);
        fac(&mut out, "s", -2);
    } else if eq_lit(t, "W") {
        fac(&mut out, "kg", 1);
        fac(&mut out, "m", 2);
        fac(&mut out, "s", -3);
    } else if eq_lit(t, "Hz") || eq_lit(t, "Bq") {
        fac(&mut out, "s", -1);
    } else if eq_lit(t, "Pa") {
        fac(&mut out, "kg", 1);
        fac(&mut out, "m", -1);
        fac(&mut out, "s", -2);
    } else if eq_lit(t, "C") {
        fac(&mut out, "A", 1);
        fac(&mut out, "s", 1);
    } else if eq_lit(t, "V") {
        fac(&mut out, "kg", 1);
        fac(&mut out, "m", 2);
        fac(&mut out, "s", -3);
        fac(&mut out, "A", -1);
    } else if eq_lit(t, "F") {
        fac(&mut out, "kg", -1);
        fac(&mut out, "m", -2);
        fac(&mut out, "s", 4);
        fac(&mut out, "A", 2);
    } else if eq_lit(t, "Ω") || eq_lit(t, "Ohm") || eq_lit(t, "ohm") {
        fac(&mut out, "kg", 1);
        fac(&mut out, "m", 2);
        fac(&mut out, "s", -3);
        fac(&mut out, "A", -2);
    } else if eq_lit(t, "S") {
        fac(&mut out, "kg", -1);
        fac(&mut out, "m", -2);
        fac(&mut out, "s", 3);
        fac(&mut out, "A", 2);
    } else if eq_lit(t, "Wb") {
        fac(&mut out, "kg", 1);
        fac(&mut out, "m", 2);
        fac(&mut out, "s", -2);
        fac(&mut out, "A", -1);
    } else if eq_lit(t, "T") {
        fac(&mut out, "kg", 1);
        fac(&mut out, "s", -2);
        fac(&mut out, "A", -1);
    } else if eq_lit(t, "H") {
        fac(&mut out, "kg", 1);
        fac(&mut out, "m", 2);
        fac(&mut out, "s", -2);
        fac(&mut out, "A", -2);
    } else if eq_lit(t, "lm") {
        fac(&mut out, "cd", 1);
    } else if eq_lit(t, "lx") {
        fac(&mut out, "cd", 1);
        fac(&mut out, "m", -2);
    } else if eq_lit(t, "Gy") || eq_lit(t, "Sv") {
        fac(&mut out, "m", 2);
        fac(&mut out, "s", -2);
    } else if eq_lit(t, "kat") {
        fac(&mut out, "mol", 1);
        fac(&mut out, "s", -1);
    } else if eq_lit(t, "g") || eq_lit(t, "mg") {
        fac(&mut out, "kg", 1);
    } else if eq_lit(t, "deg") || eq_lit(t, "degree") || eq_lit(t, "degrees") || eq_lit(t, "°") {
        fac(&mut out, "rad", 1);
    } else if eq_lit(t, "h") || eq_lit(t, "hr") || eq_lit(t, "hour") || eq_lit(t, "hours")
        || eq_lit(t, "min") || eq_lit(t, "minute") || eq_lit(t, "minutes") {
        fac(&mut out, "s", 1);
    } else {
        let ghost before = factors_view(out@);
        out.push((t0, 1));
        assert(factors_view(out@) =~= before.push((t@, 1)));
    }
    assert(factors_view(out@) =~= atom_factors_spec(AtomTable::Dimension, atom@));
    out
}

fn atom_factors(table: AtomTable, atom: &[char]) -> (r: Vec<(Vec<char>, i128)>)
    ensures
        factors_view(r@) == atom_factors_spec(table, atom@),
        small_exponents(r@),
        r@.len() <= 4,
{
    match table {
        AtomTable::Label => label_unit_atom_factors(atom),
        AtomTable::Dimension => dimension_unit_atom_factors(atom),
    }
}

} // verus!

verus! {

// ---------------------------------------------------------------------------
// Factor lists
// ---------------------------------------------------------------------------

/// Lexicographic order of character sequences (the order of `String`).
pub open spec fn seq_lt(a: Seq<char>, b: Seq<char>) -> bool
    decreases a.len(),
{
    if a.len() == 0 {
        b.len() > 0
    } else if b.len() == 0 {
        false
    } else if a[0] != b[0] {
        a[0] < b[0]
    } else {
        seq_lt(a.drop_first(), b.drop_first())
    }
}

/// No sequence comes before itself.
pub proof fn lemma_seq_lt_irreflexive(a: Seq<char>)
    ensures
        !seq_lt(a, a),
    decreases a.len(),
{
    if a.len() > 0 {
        lemma_seq_lt_irreflexive(a.drop_first());
    }
}

/// The order is transitive.
pub proof fn lemma_seq_lt_transitive(a: Seq<char>, b: Seq<char>, c: Seq<char>)
    requires
        seq_lt(a, b),
        seq_lt(b, c),
    ensures
        seq_lt(a, c),
    decreases a.len(),
{
    if a.len() > 0 && b.len() > 0 && c.len() > 0 && a[0] == b[0] && b[0] == c[0] {
        lemma_seq_lt_transitive(a.drop_first(), b.drop_first(), c.drop_first());
    }
}

/// Of two different sequences one comes first.
pub proof fn lemma_seq_lt_total(a: Seq<char>, b: Seq<char>)
    requires
        a != b,
    ensures
        seq_lt(a, b) || seq_lt(b, a),
    decreases a.len(),
{
    if a.len() > 0 && b.len() > 0 && a[0] == b[0] {
        if a.drop_first() == b.drop_first() {
            assert(a =~= seq![a[0]] + a.drop_first());
            assert(b =~= seq![b[0]] + b.drop_first());
        }
        lemma_seq_lt_total(a.drop_first(), b.drop_first());
    } else if a.len() == 0 && b.len() == 0 {
        assert(a =~= b);
    }
}

/// Two sequences are not each before the other.
pub proof fn lemma_seq_lt_asymmetric(a: Seq<char>, b: Seq<char>)
    requires
        seq_lt(a, b),
    ensures
        !seq_lt(b, a),
{
    if seq_lt(b, a) {
        lemma_seq_lt_transitive(a, b, a);
        lemma_seq_lt_irreflexive(a);
    }
}

pub(crate) fn key_lt(a: &[char], b: &[char]) -> (r: bool)
    ensures
        r == seq_lt(a@, b@),
{
    let mut i: usize = 0;
    assert(a@.skip(0) =~= a@);
    assert(b@.skip(0) =~= b@);
    while i < a.len() && i < b.len() && a[i] == b[i]
        invariant
            i <= a@.len(),
            i <= b@.len(),
            seq_lt(a@.skip(i as int), b@.skip(i as int)) == seq_lt(a@, b@),
        decreases a@.len() - i,
    {
        assert(a@.skip(i as int).drop_first() =~= a@.skip(i + 1));
        assert(b@.skip(i as int).drop_first() =~= b@.skip(i + 1));
        i = i + 1;
    }
    if i == a.len() {
        i < b.len()
    } else if i == b.len() {
        false
    } else {
        a[i] < b[i]
    }
}

/// Adds `d` to the exponent of `k` in a list of factors ordered by name:
/// the entry is created in order when missing and dropped when its exponent
/// reaches zero.
pub open spec fn factors_add(l: Seq<(Seq<char>, int)>, k: Seq<char>, d: int) -> Seq<(Seq<char>, int)>
    decreases l.len(),
{
    if l.len() == 0 {
        if d == 0 {
            l
        } else {
            seq![(k, d)]
        }
    } else if l[0].0 == k {
        let t = l[0].1 + d;
        if t == 0 {
            l.drop_first()
        } else {
            seq![(k, t)] + l.drop_first()
        }
    } else if seq_lt(k, l[0].0) {
        if d == 0 {
            l
        } else {
            seq![(k, d)] + l
        }
    } else {
        seq![l[0]] + factors_add(l.drop_first(), k, d)
    }
}

/// Adds the atom factors `fs`, each exponent scaled by `mult`, skipping
/// factors with an empty name.
pub open spec fn factors_add_all(l: Seq<(Seq<char>, int)>, fs: Seq<(Seq<char>, int)>, mult: int) -> Seq<
    (Seq<char>, int),
>
    decreases fs.len(),
{
    if fs.len() == 0 {
        l
    } else {
        let l2 = factors_add_all(l, fs.drop_last(), mult);
        if fs.last().0.len() == 0 {
            l2
        } else {
            factors_add(l2, fs.last().0, mult * fs.last().1)
        }
    }
}

pub open spec fn bound_exp() -> int {
    0x2_0000_0000
}

pub open spec fn bounded_by(l: Seq<(Vec<char>, i128)>, c: int) -> bool {
    forall|k: int| 0 <= k < l.len() ==> -c * bound_exp() <= #[trigger] l[k].1 <= c * bound_exp()
}

proof fn lemma_bounded_mono(l: Seq<(Vec<char>, i128)>, c: int, c2: int)
    requires
        bounded_by(l, c),
        0 <= c <= c2,
    ensures
        bounded_by(l, c2),
{
    assert forall|k: int| 0 <= k < l.len() implies -c2 * bound_exp() <= #[trigger] l[k].1 <= c2
        * bound_exp() by {
        assert(c * bound_exp() <= c2 * bound_exp()) by (nonlinear_arith)
            requires
                0 <= c <= c2,
        ;
    }
}

fn factors_add_exec(l: &mut Vec<(Vec<char>, i128)>, k: Vec<char>, d: i128, c: Ghost<int>)
    requires
        bounded_by(old(l)@, c@),
        0 <= c@ < 0x10_0000_0000_0000_0000_0000,
        -bound_exp() <= d <= bound_exp(),
    ensures
        factors_view(final(l)@) == factors_add(factors_view(old(l)@), k@, d as int),
        bounded_by(final(l)@, c@ + 1),
{
    let ghost l0 = factors_view(l@);
    proof {
        lemma_bounded_mono(l@, c@, c@ + 1);
        assert(l0.skip(0) =~= l0);
        assert(l0.take(0) + l0 =~= l0);
    }
    let mut i: usize = 0;
    while i < l.len() && !chars_eq_vec(&l[i].0, &k) && !key_lt(k.as_slice(), l[i].0.as_slice())
        invariant
            i <= l@.len(),
            l0 == factors_view(l@),
            bounded_by(l@, c@ + 1),
            factors_add(l0, k@, d as int) == l0.take(i as int) + factors_add(l0.skip(i as int), k@, d as int),
        decreases l@.len() - i,
    {
        proof {
            let rest = l0.skip(i as int);
            assert(rest[0] == l0[i as int]);
            assert(rest.drop_first() =~= l0.skip(i + 1));
            assert(factors_add(rest, k@, d as int) == seq![rest[0]] + factors_add(l0.skip(i + 1), k@, d as int));
            assert(l0.take(i + 1) =~= l0.take(i as int).push(l0[i as int]));
            assert(l0.take(i as int) + factors_add(rest, k@, d as int) =~= l0.take(i + 1) + factors_add(l0.skip(i + 1), k@, d as int));
        }
        i = i + 1;
    }
    let ghost rest = l0.skip(i as int);
    if i < l.len() && chars_eq_vec(&l[i].0, &k) {
        let (key, old_v) = l.remove(i);
        let t = old_v + d;
        proof {
            assert(rest[0] == l0[i as int]);
            assert(rest.drop_first() =~= l0.skip(i + 1));
        }
        if t != 0 {
            l.insert(i, (key, t));
            assert(factors_view(l@) =~= l0.take(i as int) + (seq![(k@, t as int)] + rest.drop_first()));
        } else {
            assert(factors_view(l@) =~= l0.take(i as int) + rest.drop_first());
        }
    } else {
        if i < l.len() {
            assert(rest[0] == l0[i as int]);
        } else {
            assert(rest =~= Seq::<(Seq<char>, int)>::empty());
        }
        if d != 0 {
            l.insert(i, (k, d));
            assert(factors_view(l@) =~= l0.take(i as int) + (seq![(k@, d as int)] + rest));
        } else {
            assert(l0 =~= l0.take(i as int) + rest);
        }
    }
}

fn chars_eq_vec(a: &Vec<char>, b: &Vec<char>) -> (r: bool)
    ensures
        r == (a@ == b@),
{
    crate::text::chars_eq(a.as_slice(), b.as_slice())
}

/// Words that stand for "no unit".
pub open spec fn is_unitless_word(t: Seq<char>) -> bool {
    t.len() == 0 || t == "1"@ || t == "dimensionless"@ || t == "unitless"@ || t == "Reals"@ || t
        == "Real"@
}

/// Base and exponent of a unit factor: `base^exponent` with an `i32`
/// exponent, else a trailing superscript exponent, else exponent one.
pub open spec fn base_and_exponent_spec(t: Seq<char>) -> (Seq<char>, int) {
    let fallback = match split_superscript_spec(t) {
        Some(p) => p,
        None => (t, 1),
    };
    match crate::text::find(t, "^"@) {
        Some(k) => match parse_i32_spec(t.subrange(k + 1, t.len() as int)) {
            Some(e) => (t.subrange(0, k), e),
            None => fallback,
        },
        None => fallback,
    }
}

/// The factor list after applying one raw factor with the given sign.
pub open spec fn apply_factor_spec(
    l: Seq<(Seq<char>, int)>,
    raw: Seq<char>,
    sign: int,
    table: AtomTable,
) -> Seq<(Seq<char>, int)> {
    let t = trim(raw);
    if is_unitless_word(t) {
        l
    } else {
        let (b, e) = base_and_exponent_spec(t);
        factors_add_all(l, atom_factors_spec(table, b), sign * e)
    }
}

pub(crate) fn unit_base_and_exponent(token: &[char]) -> (r: (Vec<char>, i32))
    ensures
        r.0@ == base_and_exponent_spec(token@).0,
        r.1 as int == base_and_exponent_spec(token@).1,
{
    let n = token.len();
    let caret = crate::text::find_lit(token, "^", 0);
    proof {
        crate::text::lemma_find_from(token@, "^"@, 0);
        reveal_strlit("^");
    }
    match caret {
        Some(k) => {
            assert(occurs_at(token@, k as int, "^"@));
            let mut rest: Vec<char> = Vec::new();
            push_range(&mut rest, token, k + 1, token.len());
            assert(rest@ =~= token@.subrange(k + 1, token@.len() as int));
            match parse_i32(rest.as_slice()) {
                Some(e) => {
                    let mut base: Vec<char> = Vec::new();
                    push_range(&mut base, token, 0, k);
                    assert(base@ =~= token@.subrange(0, k as int));
                    return (base, e);
                },
                None => {},
            }
        },
        None => {},
    }
    match split_superscript_unit(token) {
        Some((b, e)) => (b, e),
        None => {
            let mut t: Vec<char> = Vec::new();
            push_range(&mut t, token, 0, token.len());
            assert(t@ =~= token@);
            (t, 1)
        },
    }
}

pub(crate) fn is_unitless(t: &[char]) -> (r: bool)
    ensures
        r == is_unitless_word(t@),
{
    t.len() == 0 || eq_lit(t, "1") || eq_lit(t, "dimensionless") || eq_lit(t, "unitless") || eq_lit(
        t,
        "Reals",
    ) || eq_lit(t, "Real")
}

fn apply_unit_factor(
    raw: &[char],
    sign: i128,
    factors: &mut Vec<(Vec<char>, i128)>,
    table: AtomTable,
    c: Ghost<int>,
)
    requires
        sign == 1 || sign == -1,
        bounded_by(old(factors)@, c@),
        0 <= c@ < 0x1_0000_0000_0000_0000_0000,
    ensures
        factors_view(final(factors)@) == apply_factor_spec(factors_view(old(factors)@), raw@, sign as int, table),
        bounded_by(final(factors)@, c@ + 4),
{
    let (a, b) = trim_bounds(raw, 0, raw.len());
    assert(raw@.subrange(0, raw@.len() as int) =~= raw@);
    let mut token: Vec<char> = Vec::new();
    push_range(&mut token, raw, a, b);
    assert(token@ =~= trim(raw@));
    proof {
        lemma_bounded_mono(factors@, c@, c@ + 4);
    }
    if is_unitless(token.as_slice()) {
        return ;
    }
    let (base, exponent) = unit_base_and_exponent(token.as_slice());
    let atoms = atom_factors(table, base.as_slice());
    let ghost fs = atom_factors_spec(table, base@);
    let ghost l0 = factors_view(factors@);
    let mult: i128 = if sign == 1 {
        exponent as i128
    } else {
        -(exponent as i128)
    };
    let mut k: usize = 0;
    proof {
        assert(fs.take(0) =~= Seq::<(Seq<char>, int)>::empty());
        lemma_bounded_mono(factors@, c@, c@);
    }
    while k < atoms.len()
        invariant
            k <= atoms@.len(),
            fs == factors_view(atoms@),
            small_exponents(atoms@),
            -0x8000_0000 <= mult <= 0x8000_0000,
            0 <= c@ < 0x1_0000_0000_0000_0000_0000,
            atoms@.len() <= 4,
            bounded_by(factors@, c@ + k),
            factors_view(factors@) == factors_add_all(l0, fs.take(k as int), mult as int),
        decreases atoms@.len() - k,
    {
        let (unit, be) = (atoms[k].0.clone(), atoms[k].1);
        assert(unit@ == atoms@[k as int].0@);
        proof {
            assert(fs.take(k + 1).drop_last() =~= fs.take(k as int));
            assert(fs.take(k + 1).last() == fs[k as int]);
        }
        if unit.len() > 0 {
            assert(-4 <= be <= 4);
            assert(-0x2_0000_0000 <= mult * be <= 0x2_0000_0000) by (nonlinear_arith)
                requires
                    -0x8000_0000 <= mult <= 0x8000_0000,
                    -4 <= be <= 4,
            ;
            factors_add_exec(factors, unit, mult * be, Ghost(c@ + k));
        } else {
            proof {
                lemma_bounded_mono(factors@, c@ + k, c@ + k + 1);
            }
        }
        k = k + 1;
    }
    assert(fs.take(atoms@.len() as int) =~= fs);
    proof {
        lemma_bounded_mono(factors@, c@ + k, c@ + 4);
        assert(mult as int == sign as int * exponent as int);
        let (sb, se) = base_and_exponent_spec(trim(raw@));
        assert(sb == base@);
        assert(se == exponent as int);
    }
}

} // verus!

verus! {

/// State after scanning `cs[..i]` of a unit expression: the factor list, the
/// factor being read, and the sign it will be applied with.
pub open spec fn scan_units(cs: Seq<char>, i: int, sign: int, table: AtomTable) -> (
    Seq<(Seq<char>, int)>,
    Seq<char>,
    int,
)
    decreases i,
{
    if i <= 0 {
        (Seq::empty(), Seq::empty(), sign)
    } else {
        let (l, cur, op) = scan_units(cs, i - 1, sign, table);
        let c = cs[i - 1];
        if c == '*' || c == '/' {
            (apply_factor_spec(l, cur, op, table), Seq::empty(), if c == '*' { sign } else { -sign })
        } else {
            (l, cur.push(c), op)
        }
    }
}

/// Factors of a unit expression: whitespace removed, factors separated by
/// `*` (same sign) and `/` (opposite sign), exponents summed per atom.
pub open spec fn unit_factors_spec(unit: Seq<char>, sign: int, table: AtomTable) -> Seq<(Seq<char>, int)> {
    let cs = remove_whitespace(unit);
    let (l, cur, op) = scan_units(cs, cs.len() as int, sign, table);
    apply_factor_spec(l, cur, op, table)
}

fn apply_unit_factors(unit: &str, sign: i128, factors: &mut Vec<(Vec<char>, i128)>, table: AtomTable)
    requires
        sign == 1 || sign == -1,
        old(factors)@.len() == 0,
    ensures
        factors_view(final(factors)@) == unit_factors_spec(unit@, sign as int, table),
        bounded_by(final(factors)@, 0x10_0000_0000_0000_0000),
{
    let norm = chars_of(unit);
    let cs = remove_whitespace_chars(norm.as_slice());
    let mut operator = sign;
    let mut current: Vec<char> = Vec::new();
    let mut i: usize = 0;
    proof {
        assert(factors_view(factors@) =~= Seq::<(Seq<char>, int)>::empty());
    }
    while i < cs.len()
        invariant
            i <= cs@.len(),
            sign == 1 || sign == -1,
            operator == 1 || operator == -1,
            cs@ == remove_whitespace(unit@),
            bounded_by(factors@, 4 * i),
            (factors_view(factors@), current@, operator as int) == scan_units(cs@, i as int, sign as int, table),
        decreases cs@.len() - i,
    {
        let ch = cs[i];
        if ch == '*' || ch == '/' {
            apply_unit_factor(current.as_slice(), operator, factors, table, Ghost(4 * i as int));
            current = Vec::new();
            operator = if ch == '*' { sign } else { -sign };
        } else {
            current.push(ch);
            proof {
                lemma_bounded_mono(factors@, 4 * i, 4 * (i + 1));
            }
        }
        i = i + 1;
    }
    apply_unit_factor(current.as_slice(), operator, factors, table, Ghost(4 * i as int));
    proof {
        lemma_bounded_mono(factors@, 4 * i + 4, 0x10_0000_0000_0000_0000);
    }
}

/// Label of one factor: the atom, with `^exponent` unless the exponent is one.
pub open spec fn factor_label(u: Seq<char>, e: int) -> Seq<char> {
    if e == 1 {
        u
    } else {
        u + "^"@ + int_text(e)
    }
}

/// Labels of the factors with a positive exponent (or, when `positive` is
/// false, a negative one, shown with its magnitude), in list order.
pub open spec fn factor_labels(l: Seq<(Seq<char>, int)>, positive: bool) -> Seq<Seq<char>>
    decreases l.len(),
{
    if l.len() == 0 {
        Seq::empty()
    } else {
        let r = factor_labels(l.drop_last(), positive);
        let e = if positive {
            l.last().1
        } else {
            -l.last().1
        };
        if e > 0 {
            r.push(factor_label(l.last().0, e))
        } else {
            r
        }
    }
}

/// The canonical label of a factor list: numerator factors joined by `*`,
/// then `/` and denominator factors joined by `/` (`1/...` when there is no
/// numerator), or nothing for a unitless list.
pub open spec fn label_spec(l: Seq<(Seq<char>, int)>) -> Option<Seq<char>> {
    let n = factor_labels(l, true);
    let d = factor_labels(l, false);
    if n.len() == 0 && d.len() == 0 {
        None
    } else if d.len() == 0 {
        Some(join(n, "*"@))
    } else if n.len() == 0 {
        Some("1/"@ + join(d, "/"@))
    } else {
        Some(join(n, "*"@) + "/"@ + join(d, "/"@))
    }
}

pub(crate) fn unit_factor_label(unit: &[char], exponent: i128) -> (r: Vec<char>)
    requires
        exponent > 0,
    ensures
        r@ == factor_label(unit@, exponent as int),
{
    let mut out: Vec<char> = Vec::new();
    push_range(&mut out, unit, 0, unit.len());
    assert(unit@.subrange(0, unit@.len() as int) =~= unit@);
    if exponent == 1 {
        assert(out@ =~= unit@);
        return out;
    }
    push_chars(&mut out, "^");
    let digits = int_text_exec(exponent);
    push_range(&mut out, digits.as_slice(), 0, digits.len());
    assert(digits@.subrange(0, digits@.len() as int) =~= digits@);
    assert(out@ =~= unit@ + "^"@ + int_text(exponent as int));
    out
}

fn unit_factor_labels(factors: &Vec<(Vec<char>, i128)>, positive: bool) -> (r: Vec<Vec<char>>)
    requires
        forall|k: int| 0 <= k < factors@.len() ==> i128::MIN < #[trigger] factors@[k].1,
    ensures
        r@.map_values(|v: Vec<char>| v@) == factor_labels(factors_view(factors@), positive),
{
    let ghost fv = factors_view(factors@);
    let mut out: Vec<Vec<char>> = Vec::new();
    let mut i: usize = 0;
    while i < factors.len()
        invariant
            i <= factors@.len(),
            fv == factors_view(factors@),
            forall|k: int| 0 <= k < factors@.len() ==> i128::MIN < #[trigger] factors@[k].1,
            out@.map_values(|v: Vec<char>| v@) == factor_labels(fv.take(i as int), positive),
        decreases factors@.len() - i,
    {
        let e0 = factors[i].1;
        let e = if positive { e0 } else { -e0 };
        let ghost before = out@.map_values(|v: Vec<char>| v@);
        proof {
            assert(fv.take(i + 1).drop_last() =~= fv.take(i as int));
            assert(fv.take(i + 1).last() == fv[i as int]);
        }
        if e > 0 {
            let label = unit_factor_label(factors[i].0.as_slice(), e);
            out.push(label);
            assert(out@.map_values(|v: Vec<char>| v@) =~= before.push(label@));
        }
        i = i + 1;
    }
    assert(fv.take(factors@.len() as int) =~= fv);
    out
}


fn unit_label_from_factors(factors: &Vec<(Vec<char>, i128)>) -> (r: Option<String>)
    requires
        forall|k: int| 0 <= k < factors@.len() ==> i128::MIN < #[trigger] factors@[k].1,
    ensures
        match r {
            Some(s) => label_spec(factors_view(factors@)) == Some(s@),
            None => label_spec(factors_view(factors@)) is None,
        },
{
    let numerator = unit_factor_labels(factors, true);
    let denominator = unit_factor_labels(factors, false);
    let ghost nv = numerator@.map_values(|v: Vec<char>| v@);
    let ghost dv = denominator@.map_values(|v: Vec<char>| v@);
    if numerator.len() == 0 && denominator.len() == 0 {
        return None;
    }
    let mut out: Vec<char> = Vec::new();
    if denominator.len() == 0 {
        join_labels(&numerator, "*", &mut out);
    } else if numerator.len() == 0 {
        push_chars(&mut out, "1/");
        join_labels(&denominator, "/", &mut out);
    } else {
        join_labels(&numerator, "*", &mut out);
        push_chars(&mut out, "/");
        join_labels(&denominator, "/", &mut out);
    }
    assert(out@ =~= label_spec(factors_view(factors@)).unwrap());
    Some(string_from_chars(out.as_slice()))
}

pub open spec fn opt_string_view(o: Option<String>) -> Option<Seq<char>> {
    match o {
        Some(s) => Some(s@),
        None => None,
    }
}

pub open spec fn opt_str_view(o: Option<&str>) -> Option<Seq<char>> {
    match o {
        Some(s) => Some(s@),
        None => None,
    }
}

/// Canonical label of an optional unit under a factor table.
pub open spec fn combine_spec(unit: Option<Seq<char>>, table: AtomTable) -> Option<Seq<char>> {
    match unit {
        Some(u) => label_spec(unit_factors_spec(u, 1, table)),
        None => None,
    }
}

fn combine_units(unit: Option<&str>, table: AtomTable) -> (r: Option<String>)
    ensures
        opt_string_view(r) == combine_spec(opt_str_view(unit), table),
{
    let mut factors: Vec<(Vec<char>, i128)> = Vec::new();
    match unit {
        Some(u) => {
            apply_unit_factors(u, 1, &mut factors, table);
            assert(factors_view(factors@) == unit_factors_spec(u@, 1, table));
            assert forall|k: int| 0 <= k < factors@.len() implies i128::MIN < #[trigger] factors@[k].1 by {
                assert(-0x10_0000_0000_0000_0000 * bound_exp() <= factors@[k].1);
            }
        },
        None => {},
    }
    unit_label_from_factors(&factors)
}

} // verus!

verus! {

/// Canonical finite-solver label of a unit: factors in name order, numerator
/// then denominator; `None` for unitless labels such as `dimensionless`.
pub open spec fn canonical_label_spec(unit: Option<Seq<char>>) -> Option<Seq<char>> {
    combine_spec(unit, AtomTable::Label)
}

/// Base-dimension label of a unit: derived and scaled units expanded.
pub open spec fn dimension_spec(unit: Option<Seq<char>>) -> Option<Seq<char>> {
    combine_spec(unit, AtomTable::Dimension)
}

/// Canonicalizes a unit label into the stable finite-solver spelling.
///
/// Unitless aliases such as `dimensionless`, `unitless`, `Reals`, and `Real`
/// normalize to `None`.
pub fn canonical_unit_label(unit: &str) -> (r: Option<String>)
    ensures
        opt_string_view(r) == canonical_label_spec(Some(unit@)),
{
    canonical_unit_option(Some(unit))
}

/// Canonicalizes an optional unit label.
pub fn canonical_unit_option(unit: Option<&str>) -> (r: Option<String>)
    ensures
        opt_string_view(r) == canonical_label_spec(opt_str_view(unit)),
{
    combine_units(unit, AtomTable::Label)
}

fn unit_dimension_option(unit: Option<&str>) -> (r: Option<String>)
    ensures
        opt_string_view(r) == dimension_spec(opt_str_view(unit)),
{
    combine_units(unit, AtomTable::Dimension)
}

/// Whether two unit labels have the same base dimensions.
pub open spec fn units_equivalent_spec(left: Option<Seq<char>>, right: Option<Seq<char>>) -> bool {
    dimension_spec(left) == dimension_spec(right)
}

/// Returns true when two unit labels have the same dimension.
pub fn units_equivalent(left: Option<&str>, right: Option<&str>) -> (r: bool)
    ensures
        r == units_equivalent_spec(opt_str_view(left), opt_str_view(right)),
{
    let a = unit_dimension_option(left);
    let b = unit_dimension_option(right);
    match (a, b) {
        (None, None) => true,
        (Some(x), Some(y)) => crate::text::str_eq(x.as_str(), y.as_str()),
        _ => false,
    }
}

/// Unit equivalence is an equivalence relation: reflexive, symmetric and
/// transitive.
pub proof fn units_equivalence_is_equivalence(
    a: Option<Seq<char>>,
    b: Option<Seq<char>>,
    c: Option<Seq<char>>,
)
    ensures
        units_equivalent_spec(a, a),
        units_equivalent_spec(a, b) == units_equivalent_spec(b, a),
        units_equivalent_spec(a, b) && units_equivalent_spec(b, c) ==> units_equivalent_spec(a, c),
{
}

/// A missing unit has no label and no dimension, and is equivalent exactly
/// to the units whose dimensions cancel out.
pub proof fn missing_unit_is_unitless(u: Option<Seq<char>>)
    ensures
        canonical_label_spec(None) is None,
        dimension_spec(None) is None,
        units_equivalent_spec(None, u) <==> dimension_spec(u) is None,
{
}

} // verus!
