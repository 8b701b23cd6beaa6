//! Conversion between UTF-8 byte offsets and editor positions (zero-based
//! line and UTF-16 column).

use vstd::prelude::*;
use crate::source::TextRange;
use crate::text::{
    byte_len, char_utf16_width, char_width, chars_of, lemma_utf8_len_mono, lemma_utf8_len_take,
    utf16_len, utf16_width, utf8_len, utf8_width,
};

verus! {

/// A position as the editor protocol counts it: zero-based line, and UTF-16
/// code units from the start of the line.
#[derive(Clone, Copy, Debug, PartialEq, Eq, Structural)]
pub struct LspPosition {
    pub line: u32,
    pub character: u32,
}

/// A range between two editor positions.
#[derive(Clone, Copy, Debug, PartialEq, Eq, Structural)]
pub struct LspRange {
    pub start: LspPosition,
    pub end: LspPosition,
}

/// The part of a token that lies on one line.
#[derive(Clone, Copy, Debug, PartialEq, Eq, Structural)]
pub struct TokenSegment {
    pub line: u32,
    pub start: u32,
    pub length: u32,
}

// ---------------------------------------------------------------------------
// Specification
// ---------------------------------------------------------------------------

/// Byte offset of the `k`-th character.
pub open spec fn byte_at(s: Seq<char>, k: int) -> int {
    utf8_len(s.take(k)) as int
}

/// The last character index among `0..=k` whose byte offset is at most `b`.
pub open spec fn floor_char(s: Seq<char>, b: int, k: int) -> int
    decreases k,
{
    if k <= 0 {
        0
    } else if byte_at(s, k) <= b {
        k
    } else {
        floor_char(s, b, k - 1)
    }
}

/// The character boundary at or before byte offset `b` (past the end counts
/// as the end), as a character index.
pub open spec fn clamp_char(s: Seq<char>, b: int) -> int {
    let total = utf8_len(s) as int;
    floor_char(s, if b < total { b } else { total }, s.len() as int)
}

/// Character indices where the lines among the first `k` characters start.
pub open spec fn line_starts_upto(s: Seq<char>, k: int) -> Seq<int>
    decreases k,
{
    if k <= 0 {
        seq![0]
    } else {
        let p = line_starts_upto(s, k - 1);
        if s[k - 1] == '\n' {
            p.push(k)
        } else {
            p
        }
    }
}

pub open spec fn line_starts_of(s: Seq<char>) -> Seq<int> {
    line_starts_upto(s, s.len() as int)
}

pub open spec fn sat_u32(n: int) -> u32 {
    if n <= u32::MAX {
        n as u32
    } else {
        u32::MAX
    }
}

/// The editor position of the `k`-th character: the number of line breaks
/// before it, and the UTF-16 length of its line up to it.
pub open spec fn position_of_char(s: Seq<char>, k: int) -> LspPosition {
    let starts = line_starts_upto(s, k);
    LspPosition {
        line: sat_u32(starts.len() - 1),
        character: sat_u32(utf16_len(s.subrange(starts.last(), k)) as int),
    }
}

/// The editor position of a byte offset, after moving it back to a character
/// boundary within the text.
pub open spec fn position_spec(s: Seq<char>, b: int) -> LspPosition {
    position_of_char(s, clamp_char(s, b))
}

/// Where line `line` ends: before its line break, and before a carriage
/// return that precedes the line break.
pub open spec fn line_end_char(s: Seq<char>, line: int) -> int {
    let starts = line_starts_of(s);
    if line + 1 >= starts.len() {
        s.len() as int
    } else {
        let e = starts[line + 1] - 1;
        if e > starts[line] && s[e - 1] == '\r' {
            e - 1
        } else {
            e
        }
    }
}

/// The first character index in `j..le` whose UTF-16 end, counted from `ls`,
/// passes column `c`; `le` when there is none.
pub open spec fn first_past(s: Seq<char>, ls: int, le: int, c: int, j: int) -> int
    decreases le - j,
{
    if j >= le {
        le
    } else if utf16_len(s.subrange(ls, j + 1)) > c {
        j
    } else {
        first_past(s, ls, le, c, j + 1)
    }
}

/// The byte offset of an editor position: the end of the text for a line
/// past the last, else the character of the line where the column falls
/// (the line end when the column is past it).
pub open spec fn offset_spec(s: Seq<char>, p: LspPosition) -> int {
    let starts = line_starts_of(s);
    if p.line >= starts.len() {
        utf8_len(s) as int
    } else {
        let ls = starts[p.line as int];
        byte_at(s, first_past(s, ls, line_end_char(s, p.line as int), p.character as int, ls))
    }
}

pub open spec fn sat_sub_u32(a: u32, b: u32) -> u32 {
    if a >= b {
        (a - b) as u32
    } else {
        0
    }
}

/// The segment of characters `sk..ek` that lies on line `line`, if any.
pub open spec fn segment_at(s: Seq<char>, sk: int, ek: int, line: int) -> Option<TokenSegment> {
    let ls = line_starts_of(s)[line];
    let le = line_end_char(s, line);
    let a = if sk > ls { sk } else { ls };
    let b = if ek < le { ek } else { le };
    if a >= b {
        None
    } else {
        let p = position_of_char(s, a);
        let q = position_of_char(s, b);
        Some(TokenSegment { line: p.line, start: p.character, length: sat_sub_u32(q.character, p.character) })
    }
}

/// Segments of `sk..ek` on lines `first..line`.
pub open spec fn segments_upto(s: Seq<char>, sk: int, ek: int, first: int, line: int) -> Seq<TokenSegment>
    decreases line - first,
{
    if line <= first {
        Seq::empty()
    } else {
        let prev = segments_upto(s, sk, ek, first, line - 1);
        match segment_at(s, sk, ek, line - 1) {
            Some(g) => prev.push(g),
            None => prev,
        }
    }
}

/// The per-line segments of a byte range, both ends moved back to character
/// boundaries; nothing for an empty range.
pub open spec fn token_segments_spec(s: Seq<char>, r: TextRange) -> Seq<TokenSegment> {
    let sk = clamp_char(s, r.start as int);
    let ek = clamp_char(s, r.end as int);
    if sk >= ek {
        Seq::empty()
    } else {
        segments_upto(
            s,
            sk,
            ek,
            line_starts_upto(s, sk).len() - 1,
            line_starts_upto(s, ek).len() as int,
        )
    }
}

// ---------------------------------------------------------------------------
// Lemmas
// ---------------------------------------------------------------------------

pub proof fn lemma_line_starts(s: Seq<char>, k: int)
    requires
        0 <= k <= s.len(),
    ensures
        1 <= line_starts_upto(s, k).len() <= k + 1,
        line_starts_upto(s, k)[0] == 0,
        line_starts_upto(s, k).last() <= k,
        forall|j: int| 0 <= j < line_starts_upto(s, k).len() ==> 0 <= #[trigger] line_starts_upto(s, k)[j] <= k,
        forall|i: int, j: int|
            0 <= i < j < line_starts_upto(s, k).len() ==> line_starts_upto(s, k)[i] < line_starts_upto(s, k)[j],
        forall|j: int|
            1 <= j < line_starts_upto(s, k).len() ==> s[#[trigger] line_starts_upto(s, k)[j] - 1] == '\n',
        forall|i: int| line_starts_upto(s, k).last() <= i < k ==> s[i] != '\n',
    decreases k,
{
    if k > 0 {
        lemma_line_starts(s, k - 1);
    }
}

pub proof fn lemma_line_starts_prefix(s: Seq<char>, k: int, m: int)
    requires
        0 <= k <= m <= s.len(),
    ensures
        line_starts_upto(s, k).len() <= line_starts_upto(s, m).len(),
        forall|j: int| 0 <= j < line_starts_upto(s, k).len() ==> #[trigger] line_starts_upto(s, m)[j] == line_starts_upto(s, k)[j],
    decreases m - k,
{
    if k < m {
        lemma_line_starts_prefix(s, k, m - 1);
    }
}

pub proof fn lemma_byte_at_mono(s: Seq<char>, i: int, j: int)
    requires
        0 <= i <= j <= s.len(),
    ensures
        byte_at(s, i) <= byte_at(s, j) <= utf8_len(s),
        i < j ==> byte_at(s, i) < byte_at(s, j),
    decreases j - i,
{
    lemma_utf8_len_mono(s, i, j);
    if i < j {
        lemma_utf8_len_take(s, j - 1);
        lemma_utf8_len_mono(s, i, j - 1);
    }
}

pub proof fn lemma_floor_char(s: Seq<char>, b: int, k: int, m: int)
    requires
        0 <= k <= m <= s.len(),
        byte_at(s, k) <= b,
        k < s.len() ==> b < byte_at(s, k + 1),
    ensures
        floor_char(s, b, m) == k,
    decreases m,
{
    if m > k {
        lemma_byte_at_mono(s, k + 1, m);
        lemma_floor_char(s, b, k, m - 1);
    } else if m > 0 {
    }
}

pub proof fn lemma_utf16_le_utf8(s: Seq<char>)
    ensures
        utf16_len(s) <= utf8_len(s),
    decreases s.len(),
{
    if s.len() > 0 {
        lemma_utf16_le_utf8(s.drop_last());
    }
}

pub proof fn lemma_utf16_subrange_push(s: Seq<char>, a: int, j: int)
    requires
        0 <= a <= j < s.len(),
    ensures
        utf16_len(s.subrange(a, j + 1)) == utf16_len(s.subrange(a, j)) + char_utf16_width(s[j]),
{
    assert(s.subrange(a, j + 1).drop_last() =~= s.subrange(a, j));
}

// ---------------------------------------------------------------------------
// The index
// ---------------------------------------------------------------------------

/// A text with precomputed line starts and byte offsets.
pub struct LineIndex {
    chars: Vec<char>,
    byte_of_char: Vec<usize>,
    char_of_byte: Vec<usize>,
    line_of_char: Vec<usize>,
    line_starts: Vec<usize>,
}

impl View for LineIndex {
    type V = Seq<char>;

    closed spec fn view(&self) -> Seq<char> {
        self.chars@
    }
}

pub fn saturating_u32(value: usize) -> (r: u32)
    ensures
        r == sat_u32(value as int),
{
    if value <= 0xffff_ffff {
        value as u32
    } else {
        u32::MAX
    }
}

impl LineIndex {
    /// The tables agree with the text.
    pub closed spec fn wf(&self) -> bool {
        let s = self.chars@;
        let n = s.len() as int;
        &&& self.byte_of_char@.len() == n + 1
        &&& forall|k: int| 0 <= k <= n ==> #[trigger] self.byte_of_char@[k] == byte_at(s, k)
        &&& self.char_of_byte@.len() == utf8_len(s) + 1
        &&& forall|b: int| 0 <= b <= utf8_len(s) ==> #[trigger] self.char_of_byte@[b] == floor_char(s, b, n)
        &&& self.line_of_char@.len() == n + 1
        &&& forall|k: int| 0 <= k <= n ==> #[trigger] self.line_of_char@[k] == line_starts_upto(s, k).len() - 1
        &&& self.line_starts@.len() == line_starts_of(s).len()
        &&& forall|j: int| 0 <= j < self.line_starts@.len() ==> #[trigger] self.line_starts@[j] == line_starts_of(s)[j]
    }

    /// Indexes a text.
    pub fn new(source: &str) -> (r: LineIndex)
        ensures
            r.wf(),
            r@ == source@,
    {
        let total = byte_len(source);
        let chars = chars_of(source);
        let ghost s = chars@;
        let n = chars.len();
        proof {
            lemma_byte_at_mono(s, 0, n as int);
            assert(s.take(n as int) =~= s);
        }
        let mut byte_of_char: Vec<usize> = Vec::new();
        let mut char_of_byte: Vec<usize> = Vec::new();
        let mut line_of_char: Vec<usize> = Vec::new();
        let mut line_starts: Vec<usize> = Vec::new();
        byte_of_char.push(0);
        line_starts.push(0);
        line_of_char.push(0);
        assert(s.take(0) =~= Seq::<char>::empty());
        let mut k: usize = 0;
        while k < n
            invariant
                s == chars@,
                n == s.len(),
                total == utf8_len(s),
                k <= n,
                byte_of_char@.len() == k + 1,
                forall|j: int| 0 <= j <= k ==> #[trigger] byte_of_char@[j] == byte_at(s, j),
                char_of_byte@.len() == byte_at(s, k as int),
                forall|b: int| 0 <= b < byte_at(s, k as int) ==> #[trigger] char_of_byte@[b] == floor_char(s, b, n as int),
                line_of_char@.len() == k + 1,
                forall|j: int| 0 <= j <= k ==> #[trigger] line_of_char@[j] == line_starts_upto(s, j).len() - 1,
                line_starts@.len() == line_starts_upto(s, k as int).len(),
                forall|j: int| 0 <= j < line_starts@.len() ==> #[trigger] line_starts@[j] == line_starts_upto(s, k as int)[j],
            decreases n - k,
        {
            let w = utf8_width(chars[k]);
            let start = byte_of_char[k];
            proof {
                lemma_utf8_len_take(s, k as int);
                lemma_byte_at_mono(s, k + 1, n as int);
                lemma_line_starts(s, k as int);
            }
            let end = start + w;
            let mut b = start;
            while b < end
                invariant
                    s == chars@,
                    n == s.len(),
                    k < n,
                    start == byte_at(s, k as int),
                    end == byte_at(s, k + 1),
                    start <= b <= end,
                    char_of_byte@.len() == b,
                    forall|c: int| 0 <= c < b ==> #[trigger] char_of_byte@[c] == floor_char(s, c, n as int),
                decreases end - b,
            {
                proof {
                    lemma_floor_char(s, b as int, k as int, n as int);
                }
                char_of_byte.push(k);
                b = b + 1;
            }
            byte_of_char.push(end);
            if chars[k] == '\n' {
                line_starts.push(k + 1);
            }
            proof {
                lemma_line_starts(s, k + 1);
                assert(line_starts_upto(s, k + 1).len() <= k + 2);
            }
            line_of_char.push(line_starts.len() - 1);
            k = k + 1;
        }
        proof {
            lemma_floor_char(s, total as int, n as int, n as int);
        }
        char_of_byte.push(n);
        let r = LineIndex { chars, byte_of_char, char_of_byte, line_of_char, line_starts };
        assert(r.wf());
        r
    }

    /// The text's length in bytes.
    fn total(&self) -> (r: usize)
        requires
            self.wf(),
        ensures
            r == utf8_len(self@),
    {
        self.char_of_byte.len() - 1
    }

    /// The character index at or before a byte offset.
    fn clamp_to_char_boundary(&self, byte_offset: usize) -> (r: usize)
        requires
            self.wf(),
        ensures
            r == clamp_char(self@, byte_offset as int),
            r <= self@.len(),
    {
        let total = self.total();
        let b = if byte_offset < total { byte_offset } else { total };
        let k = self.char_of_byte[b];
        proof {
            let s = self@;
            lemma_floor_bound(s, b as int, s.len() as int);
        }
        k
    }

    /// The character index at or before a byte offset, within the text.
    pub fn char_index(&self, byte_offset: usize) -> (r: usize)
        requires
            self.wf(),
        ensures
            r == clamp_char(self@, byte_offset as int),
            r <= self@.len(),
    {
        self.clamp_to_char_boundary(byte_offset)
    }

    /// The byte offset of the `k`-th character.
    pub fn byte_offset_of_char(&self, k: usize) -> (r: usize)
        requires
            self.wf(),
            k <= self@.len(),
        ensures
            r == byte_at(self@, k as int),
    {
        self.byte_of_char[k]
    }

    /// The characters of the text.
    pub fn text_chars(&self) -> (r: &Vec<char>)
        requires
            self.wf(),
        ensures
            r@ == self@,
    {
        &self.chars
    }

    /// The line of the `k`-th character.
    fn line_for_char(&self, k: usize) -> (r: usize)
        requires
            self.wf(),
            k <= self@.len(),
        ensures
            r == line_starts_upto(self@, k as int).len() - 1,
            r < self.line_starts@.len(),
            self.line_starts@[r as int] == line_starts_upto(self@, k as int).last(),
    {
        proof {
            lemma_line_starts(self@, k as int);
            lemma_line_starts_prefix(self@, k as int, self@.len() as int);
        }
        self.line_of_char[k]
    }

    fn position_of(&self, k: usize) -> (r: LspPosition)
        requires
            self.wf(),
            k <= self@.len(),
        ensures
            r == position_of_char(self@, k as int),
    {
        let ghost s = self@;
        let total = self.total();
        let line = self.line_for_char(k);
        let ls = self.line_starts[line];
        proof {
            lemma_line_starts(s, k as int);
            lemma_byte_at_mono(s, 0, s.len() as int);
            assert(s.take(s.len() as int) =~= s);
        }
        let mut count: usize = 0;
        let mut j = ls;
        while j < k
            invariant
                s == self@,
                self.wf(),
                ls <= j <= k <= s.len(),
                count == utf16_len(s.subrange(ls as int, j as int)),
                utf8_len(s) <= usize::MAX,
            decreases k - j,
        {
            proof {
                lemma_utf16_subrange_push(s, ls as int, j as int);
                lemma_utf16_le_utf8(s.subrange(ls as int, j + 1));
                crate::text::lemma_utf8_len_concat(s.subrange(0, ls as int), s.subrange(ls as int, j + 1));
                assert(s.subrange(0, ls as int) + s.subrange(ls as int, j + 1) =~= s.take(j + 1));
                lemma_byte_at_mono(s, j + 1, s.len() as int);
            }
            count = count + utf16_width(self.chars[j]);
            j = j + 1;
        }
        LspPosition { line: saturating_u32(line), character: saturating_u32(count) }
    }

    /// The editor position of a byte offset.
    pub fn position(&self, byte_offset: usize) -> (r: LspPosition)
        requires
            self.wf(),
        ensures
            r == position_spec(self@, byte_offset as int),
    {
        let k = self.clamp_to_char_boundary(byte_offset);
        self.position_of(k)
    }

    /// The editor range of a byte range.
    pub fn range(&self, range: TextRange) -> (r: LspRange)
        requires
            self.wf(),
        ensures
            r == (LspRange {
                start: position_spec(self@, range.start as int),
                end: position_spec(self@, range.end as int),
            }),
    {
        LspRange { start: self.position(range.start), end: self.position(range.end) }
    }

    /// Character index where line `line` ends.
    fn line_end(&self, line: usize) -> (r: usize)
        requires
            self.wf(),
            line < self.line_starts@.len(),
        ensures
            r == line_end_char(self@, line as int),
            self.line_starts@[line as int] <= r <= self@.len(),
    {
        let ghost s = self@;
        proof {
            lemma_line_starts(s, s.len() as int);
        }
        let count = self.line_starts.len();
        if line + 1 >= count {
            return self.chars.len();
        }
        let next = self.line_starts[line + 1];
        let e = next - 1;
        if e > self.line_starts[line] && self.chars[e - 1] == '\r' {
            e - 1
        } else {
            e
        }
    }

    /// The byte offset of an editor position.
    pub fn offset(&self, position: LspPosition) -> (r: usize)
        requires
            self.wf(),
        ensures
            r == offset_spec(self@, position),
    {
        let ghost s = self@;
        let requested_line = position.line as usize;
        if requested_line >= self.line_starts.len() {
            return self.total();
        }
        let total = self.total();
        let ls = self.line_starts[requested_line];
        let le = self.line_end(requested_line);
        let requested = position.character as usize;
        proof {
            lemma_byte_at_mono(s, 0, s.len() as int);
            assert(s.take(s.len() as int) =~= s);
        }
        let mut utf16: usize = 0;
        let mut j = ls;
        while j < le
            invariant
                s == self@,
                self.wf(),
                ls <= j <= le <= s.len(),
                utf16 == utf16_len(s.subrange(ls as int, j as int)),
                utf8_len(s) <= usize::MAX,
                requested_line == position.line,
                requested == position.character,
                requested_line < line_starts_of(s).len(),
                ls == line_starts_of(s)[requested_line as int],
                le == line_end_char(s, requested_line as int),
                first_past(s, ls as int, le as int, requested as int, ls as int) == first_past(
                    s,
                    ls as int,
                    le as int,
                    requested as int,
                    j as int,
                ),
            decreases le - j,
        {
            proof {
                lemma_utf16_subrange_push(s, ls as int, j as int);
                lemma_utf16_le_utf8(s.subrange(ls as int, j + 1));
                crate::text::lemma_utf8_len_concat(s.subrange(0, ls as int), s.subrange(ls as int, j + 1));
                assert(s.subrange(0, ls as int) + s.subrange(ls as int, j + 1) =~= s.take(j + 1));
                lemma_byte_at_mono(s, j + 1, s.len() as int);
            }
            if utf16 >= requested {
                return self.byte_of_char[j];
            }
            let width = utf16_width(self.chars[j]);
            if utf16 + width > requested {
                return self.byte_of_char[j];
            }
            utf16 = utf16 + width;
            j = j + 1;
        }
        self.byte_of_char[le]
    }

    /// The per-line segments of a byte range.
    pub fn token_segments(&self, range: TextRange) -> (r: Vec<TokenSegment>)
        requires
            self.wf(),
        ensures
            r@ == token_segments_spec(self@, range),
    {
        let ghost s = self@;
        let start = self.clamp_to_char_boundary(range.start);
        let end = self.clamp_to_char_boundary(range.end);
        let mut segments: Vec<TokenSegment> = Vec::new();
        if start >= end {
            return segments;
        }
        let line_count = self.line_starts.len();
        let start_line = self.line_for_char(start);
        let end_line = self.line_for_char(end);
        proof {
            lemma_line_starts_prefix(s, start as int, end as int);
        }
        let mut line = start_line;
        while line <= end_line
            invariant
                s == self@,
                self.wf(),
                start < end <= s.len(),
                start_line <= line <= end_line + 1,
                end_line < self.line_starts@.len(),
                line_count == self.line_starts@.len(),
                start_line == line_starts_upto(s, start as int).len() - 1,
                end_line == line_starts_upto(s, end as int).len() - 1,
                segments@ == segments_upto(s, start as int, end as int, start_line as int, line as int),
            decreases end_line + 1 - line,
        {
            let line_start = self.line_starts[line];
            let line_end = self.line_end(line);
            let segment_start = if start > line_start { start } else { line_start };
            let segment_end = if end < line_end { end } else { line_end };
            if segment_start < segment_end {
                let start_position = self.position_of(segment_start);
                let end_position = self.position_of(segment_end);
                let length = if end_position.character >= start_position.character {
                    end_position.character - start_position.character
                } else {
                    0
                };
                segments.push(
                    TokenSegment { line: start_position.line, start: start_position.character, length },
                );
            }
            line = line + 1;
        }
        segments
    }
}

pub proof fn lemma_floor_bound(s: Seq<char>, b: int, k: int)
    requires
        0 <= k <= s.len(),
    ensures
        0 <= floor_char(s, b, k) <= k,
    decreases k,
{
    if k > 0 {
        lemma_floor_bound(s, b, k - 1);
    }
}

proof fn lemma_first_past_at(s: Seq<char>, ls: int, le: int, k: int, j: int)
    requires
        0 <= ls <= j <= k <= le <= s.len(),
    ensures
        first_past(s, ls, le, utf16_len(s.subrange(ls, k)) as int, j) == k,
    decreases k - j,
{
    let c = utf16_len(s.subrange(ls, k)) as int;
    if j < k {
        // the column after character j is still within column c
        crate::text::lemma_utf16_len_concat(s.subrange(ls, j + 1), s.subrange(j + 1, k));
        assert(s.subrange(ls, j + 1) + s.subrange(j + 1, k) =~= s.subrange(ls, k));
        lemma_first_past_at(s, ls, le, k, j + 1);
    } else if k < le {
        lemma_utf16_subrange_push(s, ls, k);
        assert(char_utf16_width(s[k]) >= 1);
    }
}

/// Mapping a character boundary to an editor position and back gives the
/// same byte offset, for every boundary that is not inside a line break
/// (at the line break, or at a carriage return before it), when the line
/// number and column fit the protocol's 32 bits.
pub proof fn lemma_position_offset_roundtrip(s: Seq<char>, k: int)
    requires
        0 <= k <= s.len(),
        k <= line_end_char(s, line_starts_upto(s, k).len() - 1),
        line_starts_upto(s, k).len() - 1 <= u32::MAX,
        utf16_len(s.subrange(line_starts_upto(s, k).last(), k)) <= u32::MAX,
    ensures
        clamp_char(s, byte_at(s, k)) == k,
        offset_spec(s, position_spec(s, byte_at(s, k))) == byte_at(s, k),
{
    let n = s.len() as int;
    lemma_byte_at_mono(s, k, n);
    if k < n {
        lemma_byte_at_mono(s, k, k + 1);
    }
    assert(s.take(n) =~= s);
    lemma_floor_char(s, byte_at(s, k), k, n);
    lemma_line_starts(s, k);
    lemma_line_starts_prefix(s, k, n);
    let starts = line_starts_upto(s, k);
    let line = starts.len() - 1;
    let ls = starts.last();
    lemma_line_starts(s, n);
    let le = line_end_char(s, line);
    let all = line_starts_of(s);
    if line + 1 < all.len() {
        assert(0 <= all[line + 1] <= n);
    }
    assert(le <= n);
    assert(starts[line] == ls);
    assert(all[line] == ls);
    lemma_first_past_at(s, ls, le, k, ls);
}

} // verus!
