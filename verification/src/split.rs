//! Delimiter-aware scanning over characters: nesting depth of brackets,
//! splitting at top-level separators and finding top-level operators.

use vstd::prelude::*;
use crate::syntax::{dec, depth_zero, zero_depth, Depth};
use crate::text::{lemma_trim_len, string_from_range, trim, trim_bounds};

verus! {

/// The depth after one character. Braces count only when `with_braces` holds.
pub open spec fn observe_char(d: Depth, c: char, with_braces: bool) -> Depth {
    if with_braces && c == '{' {
        Depth { braces: d.braces + 1, ..d }
    } else if with_braces && c == '}' {
        Depth { braces: dec(d.braces), ..d }
    } else if c == '(' {
        Depth { parentheses: d.parentheses + 1, ..d }
    } else if c == ')' {
        Depth { parentheses: dec(d.parentheses), ..d }
    } else if c == '[' {
        Depth { brackets: d.brackets + 1, ..d }
    } else if c == ']' {
        Depth { brackets: dec(d.brackets), ..d }
    } else if c == '⟨' {
        Depth { angles: d.angles + 1, ..d }
    } else if c == '⟩' {
        Depth { angles: dec(d.angles), ..d }
    } else {
        d
    }
}

/// Nesting depth after the first `i` characters of `s`.
pub open spec fn depth_before(s: Seq<char>, i: int, with_braces: bool) -> Depth
    decreases i,
{
    if i <= 0 {
        zero_depth()
    } else {
        observe_char(depth_before(s, i - 1, with_braces), s[i - 1], with_braces)
    }
}

/// Whether `s[i]` is the character `c` outside every bracket pair.
pub open spec fn top_level_at(s: Seq<char>, i: int, c: char, with_braces: bool) -> bool {
    0 <= i < s.len() && s[i] == c && depth_zero(depth_before(s, i + 1, with_braces))
}

/// Scan state after `i` characters: where the current part starts, and the
/// trimmed parts closed so far.
pub open spec fn split_scan(s: Seq<char>, c: char, with_braces: bool, i: int) -> (int, Seq<Seq<char>>)
    decreases i,
{
    if i <= 0 {
        (0, Seq::empty())
    } else {
        let (start, parts) = split_scan(s, c, with_braces, i - 1);
        if top_level_at(s, i - 1, c, with_braces) {
            (i, parts.push(trim(s.subrange(start, i - 1))))
        } else {
            (start, parts)
        }
    }
}

/// The trimmed parts of `s` between top-level separators `c`; the part after
/// the last separator is kept only when it is not blank.
pub open spec fn split_top_level_spec(s: Seq<char>, c: char, with_braces: bool) -> Seq<Seq<char>> {
    let (start, parts) = split_scan(s, c, with_braces, s.len() as int);
    let tail = trim(s.subrange(start, s.len() as int));
    if tail.len() == 0 {
        parts
    } else {
        parts.push(tail)
    }
}

/// Index of the first top-level `c` at or after `i`.
pub open spec fn first_top_level_from(s: Seq<char>, c: char, with_braces: bool, i: int) -> Option<int>
    decreases s.len() - i,
{
    if i < 0 || i >= s.len() {
        None
    } else if top_level_at(s, i, c, with_braces) {
        Some(i)
    } else {
        first_top_level_from(s, c, with_braces, i + 1)
    }
}

pub open spec fn strings_view(v: Seq<String>) -> Seq<Seq<char>> {
    v.map_values(|x: String| x@)
}

pub proof fn lemma_split_scan_bounds(s: Seq<char>, c: char, wb: bool, i: int)
    requires
        0 <= i <= s.len(),
    ensures
        0 <= split_scan(s, c, wb, i).0 <= i,
    decreases i,
{
    if i > 0 {
        lemma_split_scan_bounds(s, c, wb, i - 1);
    }
}

/// Bracket depth over characters, with the counters the scan keeps.
pub(crate) struct CharDepth {
    pub(crate) braces: usize,
    pub(crate) parentheses: usize,
    pub(crate) brackets: usize,
    pub(crate) angles: usize,
}

impl CharDepth {
    pub(crate) open spec fn view_depth(&self) -> Depth {
        Depth {
            braces: self.braces as nat,
            parentheses: self.parentheses as nat,
            brackets: self.brackets as nat,
            angles: self.angles as nat,
        }
    }

    pub(crate) open spec fn bounded(&self, n: int) -> bool {
        self.braces <= n && self.parentheses <= n && self.brackets <= n && self.angles <= n
    }

    pub(crate) fn zero() -> (r: CharDepth)
        ensures
            r.view_depth() == zero_depth(),
            r.bounded(0),
    {
        CharDepth { braces: 0, parentheses: 0, brackets: 0, angles: 0 }
    }

    pub(crate) fn observe(&mut self, c: char, with_braces: bool, n: Ghost<int>)
        requires
            old(self).bounded(n@),
            n@ < usize::MAX,
        ensures
            final(self).view_depth() == observe_char(old(self).view_depth(), c, with_braces),
            final(self).bounded(n@ + 1),
    {
        if with_braces && c == '{' {
            self.braces = self.braces + 1;
        } else if with_braces && c == '}' {
            self.braces = if self.braces > 0 { self.braces - 1 } else { 0 };
        } else if c == '(' {
            self.parentheses = self.parentheses + 1;
        } else if c == ')' {
            self.parentheses = if self.parentheses > 0 { self.parentheses - 1 } else { 0 };
        } else if c == '[' {
            self.brackets = self.brackets + 1;
        } else if c == ']' {
            self.brackets = if self.brackets > 0 { self.brackets - 1 } else { 0 };
        } else if c == '⟨' {
            self.angles = self.angles + 1;
        } else if c == '⟩' {
            self.angles = if self.angles > 0 { self.angles - 1 } else { 0 };
        }
    }

    pub(crate) fn is_zero(&self) -> (r: bool)
        ensures
            r == depth_zero(self.view_depth()),
    {
        self.braces == 0 && self.parentheses == 0 && self.brackets == 0 && self.angles == 0
    }
}

/// Splits `s` at top-level separators `c`, trimming each part and dropping a
/// blank last part.
pub fn split_top_level(s: &[char], c: char, with_braces: bool) -> (r: Vec<String>)
    ensures
        strings_view(r@) == split_top_level_spec(s@, c, with_braces),
{
    let mut parts: Vec<String> = Vec::new();
    let mut depth = CharDepth::zero();
    let mut start: usize = 0;
    let mut i: usize = 0;
    while i < s.len()
        invariant
            i <= s@.len(),
            start <= i,
            depth.bounded(i as int),
            depth.view_depth() == depth_before(s@, i as int, with_braces),
            split_scan(s@, c, with_braces, i as int) == (start as int, strings_view(parts@)),
        decreases s@.len() - i,
    {
        depth.observe(s[i], with_braces, Ghost(i as int));
        if depth.is_zero() && s[i] == c {
            let (a, b) = trim_bounds(s, start, i);
            let part = string_from_range(s, a, b);
            proof {
                assert(strings_view(parts@.push(part)) =~= strings_view(parts@).push(part@));
            }
            parts.push(part);
            start = i + 1;
        }
        i = i + 1;
    }
    let (a, b) = trim_bounds(s, start, s.len());
    if a < b {
        let tail = string_from_range(s, a, b);
        proof {
            assert(strings_view(parts@.push(tail)) =~= strings_view(parts@).push(tail@));
        }
        parts.push(tail);
    }
    parts
}

/// Index of the first top-level `c` in `s`.
pub fn split_top_level_once(s: &[char], c: char, with_braces: bool) -> (r: Option<usize>)
    ensures
        match r {
            Some(k) => first_top_level_from(s@, c, with_braces, 0) == Some(k as int),
            None => first_top_level_from(s@, c, with_braces, 0) is None,
        },
{
    let mut depth = CharDepth::zero();
    let mut i: usize = 0;
    while i < s.len()
        invariant
            i <= s@.len(),
            depth.bounded(i as int),
            depth.view_depth() == depth_before(s@, i as int, with_braces),
            first_top_level_from(s@, c, with_braces, 0) == first_top_level_from(
                s@,
                c,
                with_braces,
                i as int,
            ),
        decreases s@.len() - i,
    {
        depth.observe(s[i], with_braces, Ghost(i as int));
        if depth.is_zero() && s[i] == c {
            return Some(i);
        }
        i = i + 1;
    }
    None
}

pub proof fn lemma_split_scan_parts(s: Seq<char>, c: char, wb: bool, i: int)
    requires
        0 <= i <= s.len(),
    ensures
        0 <= split_scan(s, c, wb, i).0 <= i,
        forall|k: int|
            0 <= k < split_scan(s, c, wb, i).1.len() ==> (#[trigger] split_scan(s, c, wb, i).1[k]).len()
                < s.len(),
    decreases i,
{
    if i > 0 {
        lemma_split_scan_parts(s, c, wb, i - 1);
        let (start, parts) = split_scan(s, c, wb, i - 1);
        if top_level_at(s, i - 1, c, wb) {
            lemma_trim_len(s.subrange(start, i - 1));
        }
    }
}

/// Every part of a split is shorter than the text, or as long when there is
/// no separator.
pub proof fn lemma_split_parts_len(s: Seq<char>, c: char, wb: bool)
    ensures
        forall|k: int|
            0 <= k < split_top_level_spec(s, c, wb).len() ==> (#[trigger] split_top_level_spec(
                s,
                c,
                wb,
            )[k]).len() <= s.len(),
{
    lemma_split_scan_parts(s, c, wb, s.len() as int);
    let (start, parts) = split_scan(s, c, wb, s.len() as int);
    lemma_trim_len(s.subrange(start, s.len() as int));
}

pub proof fn lemma_first_top_level(s: Seq<char>, c: char, wb: bool, i: int)
    requires
        0 <= i,
    ensures
        first_top_level_from(s, c, wb, i) matches Some(k) ==> i <= k < s.len() && top_level_at(
            s,
            k,
            c,
            wb,
        ),
    decreases s.len() - i,
{
    if i < s.len() && !top_level_at(s, i, c, wb) {
        lemma_first_top_level(s, c, wb, i + 1);
    }
}

} // verus!
