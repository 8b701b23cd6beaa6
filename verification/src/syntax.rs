//! Syntax layer for MCDPL.
//!
//! The parser is intentionally lightweight: it provides stable tokenization,
//! document-kind detection, statement-level structure, spans, and recovery
//! diagnostics.

use vstd::prelude::*;
#[allow(unused_imports)]
use crate::diagnostic::{Diagnostic, DiagnosticView, Severity, error_view, diagnostics_view, any_error, contains_error};
#[allow(unused_imports)]
use crate::source::{SourceId, SpanView, TextRange, TextSpan};
#[allow(unused_imports)]
use crate::text::{
    unicode_whitespace, unicode_alphabetic, unicode_numeric, unicode_alphanumeric, is_whitespace,
    is_alphabetic, is_numeric, is_alphanumeric, is_ascii_digit, is_ascii_digit_spec, utf8_len,
    utf8_width, lemma_utf8_len_take, lemma_utf8_len_mono, byte_len, chars_of, string_from_range,
    string_from_chars, push_chars, push_range, chars_eq, eq_lit, trim, trim_bounds, occurs_at,
    find_from, find, contains_seq, find_lit, lemma_find_from, join3, join5,
};

verus! {

/// Top-level MCDPL document kind.
#[derive(Clone, Copy, Debug, PartialEq, Eq, Structural)]
pub enum DocumentKind {
    /// `mcdp { ... }`
    Mcdp,
    /// `dp { ... }`
    Dp,
    /// `catalog { ... }`
    Catalog,
    /// `choose (...)`
    Choose,
    /// `intersection (...)`
    Intersection,
    /// `interface { ... }`
    Interface,
    /// `poset { ... }`
    Poset,
    /// `template [...] mcdp { ... }`
    Template,
    /// `specialize [...] ...`
    Specialize,
}

/// Token kind emitted by the lexer.
#[derive(Clone, Copy, Debug, PartialEq, Eq, Structural)]
pub enum TokenKind {
    /// Language keyword.
    Keyword,
    /// Identifier or symbolic name.
    Ident,
    /// Number literal without attached unit.
    Number,
    /// Quoted string.
    String,
    /// Line comment.
    Comment,
    /// Horizontal whitespace.
    Whitespace,
    /// Newline.
    Newline,
    /// Operator or relation glyph.
    Operator,
    /// Punctuation.
    Punctuation,
    /// Unknown single character.
    Unknown,
}

/// Source token with byte range.
#[derive(Clone, Debug, PartialEq, Eq)]
pub struct Token {
    /// Token kind.
    pub kind: TokenKind,
    /// Token text.
    pub text: String,
    /// Byte range in the original document.
    pub range: TextRange,
}

pub struct TokenView {
    pub kind: TokenKind,
    pub text: Seq<char>,
    pub range: TextRange,
}

impl View for Token {
    type V = TokenView;

    open spec fn view(&self) -> TokenView {
        TokenView { kind: self.kind, text: self.text@, range: self.range }
    }
}

pub open spec fn tokens_view(ts: Seq<Token>) -> Seq<TokenView> {
    ts.map_values(|t: Token| t@)
}

// ---------------------------------------------------------------------------
// Character classes of the lexer
// ---------------------------------------------------------------------------

pub open spec fn is_ident_start_spec(c: char) -> bool {
    c == '_' || unicode_alphabetic(c) || unicode_numeric(c)
}

pub open spec fn is_ident_continue_spec(c: char) -> bool {
    c == '_' || unicode_alphanumeric(c) || unicode_numeric(c)
}

pub open spec fn is_number_continue_spec(c: char) -> bool {
    is_ascii_digit_spec(c) || c == '.' || c == '_'
}

pub open spec fn is_operator_char_spec(c: char) -> bool {
    c == '<' || c == '>' || c == '=' || c == '≤' || c == '≥' || c == '⪯' || c == '⪰' || c == '←'
        || c == '→' || c == '↤' || c == '↦' || c == '⟷' || c == '-' || c == '|' || c == '*' || c
        == '/' || c == '+' || c == '^' || c == '·'
}

pub open spec fn is_punctuation_spec(c: char) -> bool {
    c == '{' || c == '}' || c == '(' || c == ')' || c == '[' || c == ']' || c == ',' || c == ':'
        || c == '.' || c == ';' || c == '`' || c == '⟨' || c == '⟩'
}

fn is_ident_start(c: char) -> (r: bool)
    ensures
        r == is_ident_start_spec(c),
{
    c == '_' || is_alphabetic(c) || is_numeric(c)
}

fn is_ident_continue(c: char) -> (r: bool)
    ensures
        r == is_ident_continue_spec(c),
{
    c == '_' || is_alphanumeric(c) || is_numeric(c)
}

fn is_number_continue(c: char) -> (r: bool)
    ensures
        r == is_number_continue_spec(c),
{
    is_ascii_digit(c) || c == '.' || c == '_'
}

fn is_operator_char(c: char) -> (r: bool)
    ensures
        r == is_operator_char_spec(c),
{
    c == '<' || c == '>' || c == '=' || c == '≤' || c == '≥' || c == '⪯' || c == '⪰' || c == '←'
        || c == '→' || c == '↤' || c == '↦' || c == '⟷' || c == '-' || c == '|' || c == '*' || c
        == '/' || c == '+' || c == '^' || c == '·'
}

fn is_punctuation(c: char) -> (r: bool)
    ensures
        r == is_punctuation_spec(c),
{
    c == '{' || c == '}' || c == '(' || c == ')' || c == '[' || c == ']' || c == ',' || c == ':'
        || c == '.' || c == ';' || c == '`' || c == '⟨' || c == '⟩'
}

/// The words the lexer reports as keywords.
pub open spec fn is_keyword_spec(t: Seq<char>) -> bool {
    t == "mcdp"@ || t == "dp"@ || t == "catalog"@ || t == "choose"@ || t == "intersection"@ || t
        == "interface"@ || t == "poset"@ || t == "template"@ || t == "specialize"@ || t
        == "provides"@ || t == "requires"@ || t == "provided"@ || t == "required"@ || t
        == "instance"@ || t == "implemented-by"@ || t == "implements"@ || t == "resource"@ || t
        == "from"@ || t == "library"@ || t == "import"@ || t == "model"@ || t == "sub"@ || t
        == "constant"@ || t == "sum"@ || t == "by"@
}

fn is_keyword(t: &[char]) -> (r: bool)
    ensures
        r == is_keyword_spec(t@),
{
    eq_lit(t, "mcdp") || eq_lit(t, "dp") || eq_lit(t, "catalog") || eq_lit(t, "choose") || eq_lit(
        t,
        "intersection",
    ) || eq_lit(t, "interface") || eq_lit(t, "poset") || eq_lit(t, "template") || eq_lit(
        t,
        "specialize",
    ) || eq_lit(t, "provides") || eq_lit(t, "requires") || eq_lit(t, "provided") || eq_lit(
        t,
        "required",
    ) || eq_lit(t, "instance") || eq_lit(t, "implemented-by") || eq_lit(t, "implements")
        || eq_lit(t, "resource") || eq_lit(t, "from") || eq_lit(t, "library") || eq_lit(
        t,
        "import",
    ) || eq_lit(t, "model") || eq_lit(t, "sub") || eq_lit(t, "constant") || eq_lit(t, "sum")
        || eq_lit(t, "by")
}

/// Runs of characters that the lexer consumes greedily.
#[derive(Clone, Copy, PartialEq, Eq, Structural)]
pub enum Run {
    Blank,
    CommentBody,
    NumberTail,
    IdentTail,
    OperatorTail,
}

pub open spec fn in_run(r: Run, c: char) -> bool {
    match r {
        Run::Blank => unicode_whitespace(c) && c != '\n',
        Run::CommentBody => c != '\n',
        Run::NumberTail => is_number_continue_spec(c),
        Run::IdentTail => is_ident_continue_spec(c),
        Run::OperatorTail => is_operator_char_spec(c),
    }
}

fn in_run_exec(r: Run, c: char) -> (b: bool)
    ensures
        b == in_run(r, c),
{
    match r {
        Run::Blank => is_whitespace(c) && c != '\n',
        Run::CommentBody => c != '\n',
        Run::NumberTail => is_number_continue(c),
        Run::IdentTail => is_ident_continue(c),
        Run::OperatorTail => is_operator_char(c),
    }
}

/// End of the longest run of class `r` that starts at `j`.
pub open spec fn scan_run(cs: Seq<char>, j: int, r: Run) -> int
    decreases cs.len() - j,
{
    if 0 <= j < cs.len() && in_run(r, cs[j]) {
        scan_run(cs, j + 1, r)
    } else {
        j
    }
}

/// End of a quoted string whose body starts at `j`: one past the closing
/// quote, or the end of the text when the quote is never closed; a
/// backslash escapes the character after it.
pub open spec fn scan_string(cs: Seq<char>, j: int, quote: char, escaped: bool) -> int
    decreases cs.len() - j,
{
    if j < 0 || j >= cs.len() {
        j
    } else if escaped {
        scan_string(cs, j + 1, quote, false)
    } else if cs[j] == '\\' {
        scan_string(cs, j + 1, quote, true)
    } else if cs[j] == quote {
        j + 1
    } else {
        scan_string(cs, j + 1, quote, false)
    }
}

/// Kind and end of the token that starts at character index `i`.
pub open spec fn token_at(cs: Seq<char>, i: int) -> (TokenKind, int) {
    let c = cs[i];
    if c == '\n' {
        (TokenKind::Newline, i + 1)
    } else if unicode_whitespace(c) {
        (TokenKind::Whitespace, scan_run(cs, i + 1, Run::Blank))
    } else if c == '#' {
        (TokenKind::Comment, scan_run(cs, i + 1, Run::CommentBody))
    } else if c == '"' || c == '\'' {
        (TokenKind::String, scan_string(cs, i + 1, c, false))
    } else if is_ascii_digit_spec(c) {
        (TokenKind::Number, scan_run(cs, i + 1, Run::NumberTail))
    } else if is_ident_start_spec(c) {
        let e = scan_run(cs, i + 1, Run::IdentTail);
        (
            if is_keyword_spec(cs.subrange(i, e)) {
                TokenKind::Keyword
            } else {
                TokenKind::Ident
            },
            e,
        )
    } else if is_operator_char_spec(c) {
        (TokenKind::Operator, scan_run(cs, i + 1, Run::OperatorTail))
    } else if is_punctuation_spec(c) {
        (TokenKind::Punctuation, i + 1)
    } else {
        (TokenKind::Unknown, i + 1)
    }
}

pub proof fn lemma_scan_run(cs: Seq<char>, j: int, r: Run)
    requires
        0 <= j <= cs.len(),
    ensures
        j <= scan_run(cs, j, r) <= cs.len(),
    decreases cs.len() - j,
{
    if j < cs.len() && in_run(r, cs[j]) {
        lemma_scan_run(cs, j + 1, r);
    }
}

pub proof fn lemma_scan_string(cs: Seq<char>, j: int, quote: char, escaped: bool)
    requires
        0 <= j <= cs.len(),
    ensures
        j <= scan_string(cs, j, quote, escaped) <= cs.len(),
    decreases cs.len() - j,
{
    if j < cs.len() {
        if escaped {
            lemma_scan_string(cs, j + 1, quote, false);
        } else if cs[j] == '\\' {
            lemma_scan_string(cs, j + 1, quote, true);
        } else if cs[j] != quote {
            lemma_scan_string(cs, j + 1, quote, false);
        }
    }
}

pub proof fn lemma_token_at(cs: Seq<char>, i: int)
    requires
        0 <= i < cs.len(),
    ensures
        i < token_at(cs, i).1 <= cs.len(),
{
    lemma_scan_run(cs, i + 1, Run::Blank);
    lemma_scan_run(cs, i + 1, Run::CommentBody);
    lemma_scan_run(cs, i + 1, Run::NumberTail);
    lemma_scan_run(cs, i + 1, Run::IdentTail);
    lemma_scan_run(cs, i + 1, Run::OperatorTail);
    lemma_scan_string(cs, i + 1, cs[i], false);
}

/// Character spans `(kind, start, end)` of the tokens from index `i` on.
pub open spec fn lex_spans(cs: Seq<char>, i: int) -> Seq<(TokenKind, int, int)>
    decreases cs.len() - i,
{
    if i < 0 || i >= cs.len() {
        Seq::empty()
    } else {
        let (k, e) = token_at(cs, i);
        if e <= i || e > cs.len() {
            Seq::empty()
        } else {
            seq![(k, i, e)] + lex_spans(cs, e)
        }
    }
}

/// Byte offset of character index `i`.
pub open spec fn byte_at(cs: Seq<char>, i: int) -> usize {
    utf8_len(cs.take(i)) as usize
}

/// The token that a character span denotes.
pub open spec fn span_token(cs: Seq<char>, sp: (TokenKind, int, int)) -> TokenView {
    TokenView {
        kind: sp.0,
        text: cs.subrange(sp.1, sp.2),
        range: TextRange { start: byte_at(cs, sp.1), end: byte_at(cs, sp.2) },
    }
}

/// The token stream of a source text, trivia included.
pub open spec fn lex_spec(cs: Seq<char>) -> Seq<TokenView> {
    lex_spans(cs, 0).map_values(|sp: (TokenKind, int, int)| span_token(cs, sp))
}

fn scan_run_exec(cs: &[char], j: usize, r: Run) -> (e: usize)
    requires
        j <= cs@.len(),
    ensures
        e == scan_run(cs@, j as int, r),
        j <= e <= cs@.len(),
{
    let mut k = j;
    while k < cs.len() && in_run_exec(r, cs[k])
        invariant
            j <= k <= cs@.len(),
            scan_run(cs@, k as int, r) == scan_run(cs@, j as int, r),
        decreases cs@.len() - k,
    {
        k = k + 1;
    }
    k
}

fn scan_string_exec(cs: &[char], j: usize, quote: char) -> (e: usize)
    requires
        j <= cs@.len(),
    ensures
        e == scan_string(cs@, j as int, quote, false),
        j <= e <= cs@.len(),
{
    let mut k = j;
    let mut escaped = false;
    while k < cs.len()
        invariant
            j <= k <= cs@.len(),
            scan_string(cs@, k as int, quote, escaped) == scan_string(cs@, j as int, quote, false),
        decreases cs@.len() - k,
    {
        if escaped {
            escaped = false;
        } else if cs[k] == '\\' {
            escaped = true;
        } else if cs[k] == quote {
            return k + 1;
        }
        k = k + 1;
    }
    k
}

/// Byte offset of character index `to`, given that of `from`.
fn advance_bytes(cs: &[char], from: usize, to: usize, byte_from: usize, total: usize) -> (b: usize)
    requires
        from <= to <= cs@.len(),
        byte_from == utf8_len(cs@.take(from as int)),
        total == utf8_len(cs@),
    ensures
        b == utf8_len(cs@.take(to as int)),
{
    let mut k = from;
    let mut b = byte_from;
    while k < to
        invariant
            from <= k <= to <= cs@.len(),
            b == utf8_len(cs@.take(k as int)),
            total == utf8_len(cs@),
        decreases to - k,
    {
        proof {
            lemma_utf8_len_take(cs@, k as int);
            lemma_utf8_len_mono(cs@, k + 1, k + 1);
        }
        b = b + utf8_width(cs[k]);
        k = k + 1;
    }
    b
}

fn token_at_exec(cs: &[char], i: usize) -> (r: (TokenKind, usize))
    requires
        i < cs@.len(),
    ensures
        r.0 == token_at(cs@, i as int).0,
        r.1 == token_at(cs@, i as int).1,
{
    proof {
        lemma_token_at(cs@, i as int);
    }
    let c = cs[i];
    if c == '\n' {
        (TokenKind::Newline, i + 1)
    } else if is_whitespace(c) {
        (TokenKind::Whitespace, scan_run_exec(cs, i + 1, Run::Blank))
    } else if c == '#' {
        (TokenKind::Comment, scan_run_exec(cs, i + 1, Run::CommentBody))
    } else if c == '"' || c == '\'' {
        (TokenKind::String, scan_string_exec(cs, i + 1, c))
    } else if is_ascii_digit(c) {
        (TokenKind::Number, scan_run_exec(cs, i + 1, Run::NumberTail))
    } else if is_ident_start(c) {
        let e = scan_run_exec(cs, i + 1, Run::IdentTail);
        let mut word: Vec<char> = Vec::new();
        push_range(&mut word, cs, i, e);
        assert(word@ =~= cs@.subrange(i as int, e as int));
        if is_keyword(word.as_slice()) {
            (TokenKind::Keyword, e)
        } else {
            (TokenKind::Ident, e)
        }
    } else if is_operator_char(c) {
        (TokenKind::Operator, scan_run_exec(cs, i + 1, Run::OperatorTail))
    } else if is_punctuation(c) {
        (TokenKind::Punctuation, i + 1)
    } else {
        (TokenKind::Unknown, i + 1)
    }
}

/// Tokenizes MCDPL source text.
pub fn lex(source: &str) -> (tokens: Vec<Token>)
    ensures
        tokens_view(tokens@) == lex_spec(source@),
{
    let cs = chars_of(source);
    let total = byte_len(source);
    let ghost s = cs@;
    let mut tokens: Vec<Token> = Vec::new();
    let mut i: usize = 0;
    let mut byte_i: usize = 0;
    proof {
        assert(s.take(0) =~= Seq::<char>::empty());
    }
    while i < cs.len()
        invariant
            s == cs@,
            i <= cs@.len(),
            byte_i == utf8_len(s.take(i as int)),
            total == utf8_len(s),
            lex_spans(s, 0).map_values(|sp: (TokenKind, int, int)| span_token(s, sp))
                == tokens_view(tokens@) + lex_spans(s, i as int).map_values(
                |sp: (TokenKind, int, int)| span_token(s, sp),
            ),
        decreases cs@.len() - i,
    {
        let (kind, e) = token_at_exec(cs.as_slice(), i);
        proof {
            lemma_token_at(s, i as int);
        }
        let byte_e = advance_bytes(cs.as_slice(), i, e, byte_i, total);
        proof {
            lemma_utf8_len_mono(s, i as int, e as int);
        }
        let text = string_from_range(cs.as_slice(), i, e);
        let tok = Token { kind, text, range: TextRange { start: byte_i, end: byte_e } };
        proof {
            let f = |sp: (TokenKind, int, int)| span_token(s, sp);
            let rest = lex_spans(s, e as int);
            assert(lex_spans(s, i as int) == seq![(kind, i as int, e as int)] + rest);
            assert(lex_spans(s, i as int).map_values(f) =~= seq![span_token(s, (kind, i as int, e as int))] + rest.map_values(f));
            assert(tok@ == span_token(s, (kind, i as int, e as int)));
            assert(tokens_view(tokens@.push(tok)) =~= tokens_view(tokens@).push(tok@));
        }
        tokens.push(tok);
        i = e;
        byte_i = byte_e;
    }
    proof {
        assert(lex_spans(s, i as int) =~= Seq::<(TokenKind, int, int)>::empty());
        assert(tokens_view(tokens@) =~= lex_spans(s, 0).map_values(|sp: (TokenKind, int, int)| span_token(s, sp)));
    }
    tokens
}

} // verus!

verus! {

/// Concatenation of the texts of a token sequence.
pub open spec fn concat_texts(ts: Seq<TokenView>) -> Seq<char>
    decreases ts.len(),
{
    if ts.len() == 0 {
        Seq::empty()
    } else {
        ts[0].text + concat_texts(ts.drop_first())
    }
}

proof fn lemma_lex_spans(cs: Seq<char>, i: int)
    requires
        0 <= i <= cs.len(),
    ensures
        ({
            let sp = lex_spans(cs, i);
            &&& forall|k: int| 0 <= k < sp.len() ==> i <= #[trigger] sp[k].1 < sp[k].2 <= cs.len()
            &&& sp.len() > 0 ==> sp[0].1 == i && sp.last().2 == cs.len()
            &&& sp.len() == 0 ==> i == cs.len()
            &&& forall|k: int| 0 <= k < sp.len() - 1 ==> #[trigger] sp[k].2 == sp[k + 1].1
            &&& concat_texts(sp.map_values(|x: (TokenKind, int, int)| span_token(cs, x)))
                == cs.subrange(i, cs.len() as int)
        }),
    decreases cs.len() - i,
{
    let sp = lex_spans(cs, i);
    let f = |x: (TokenKind, int, int)| span_token(cs, x);
    if i == cs.len() {
        assert(sp.map_values(f) =~= Seq::<TokenView>::empty());
        assert(cs.subrange(i, cs.len() as int) =~= Seq::<char>::empty());
    } else {
        lemma_token_at(cs, i);
        let (kind, e) = token_at(cs, i);
        let rest = lex_spans(cs, e);
        lemma_lex_spans(cs, e);
        assert(sp == seq![(kind, i, e)] + rest);
        let m = sp.map_values(f);
        assert(m =~= seq![span_token(cs, (kind, i, e))] + rest.map_values(f));
        assert(m.drop_first() =~= rest.map_values(f));
        assert(concat_texts(m) == cs.subrange(i, e) + concat_texts(rest.map_values(f)));
        assert(cs.subrange(i, cs.len() as int) =~= cs.subrange(i, e) + cs.subrange(
            e,
            cs.len() as int,
        ));
        assert forall|k: int| 0 <= k < sp.len() - 1 implies #[trigger] sp[k].2 == sp[k + 1].1 by {
            if k > 0 {
                assert(sp[k] == rest[k - 1]);
                assert(sp[k + 1] == rest[k]);
            }
        }
        assert forall|k: int| 0 <= k < sp.len() implies i <= #[trigger] sp[k].1 < sp[k].2
            <= cs.len() by {
            if k > 0 {
                assert(sp[k] == rest[k - 1]);
            }
        }
        if rest.len() > 0 {
            assert(sp.last() == rest.last());
        }
    }
}

proof fn lemma_scan_run_holds(cs: Seq<char>, j: int, r: Run)
    requires
        0 <= j <= cs.len(),
    ensures
        forall|k: int| j <= k < scan_run(cs, j, r) ==> in_run(r, #[trigger] cs[k]),
    decreases cs.len() - j,
{
    if j < cs.len() && in_run(r, cs[j]) {
        lemma_scan_run_holds(cs, j + 1, r);
    }
}

proof fn lemma_lex_spans_token_at(cs: Seq<char>, i: int)
    requires
        0 <= i <= cs.len(),
    ensures
        forall|k: int|
            0 <= k < lex_spans(cs, i).len() ==> (#[trigger] lex_spans(cs, i)[k]).0 == token_at(
                cs,
                lex_spans(cs, i)[k].1,
            ).0 && lex_spans(cs, i)[k].2 == token_at(cs, lex_spans(cs, i)[k].1).1,
    decreases cs.len() - i,
{
    if i < cs.len() {
        lemma_token_at(cs, i);
        let (kind, e) = token_at(cs, i);
        lemma_lex_spans_token_at(cs, e);
        let sp = lex_spans(cs, i);
        let rest = lex_spans(cs, e);
        assert(sp == seq![(kind, i, e)] + rest);
        assert forall|k: int| 0 <= k < sp.len() implies (#[trigger] sp[k]).0 == token_at(cs, sp[k].1).0
            && sp[k].2 == token_at(cs, sp[k].1).1 by {
            if k > 0 {
                assert(sp[k] == rest[k - 1]);
            }
        }
    }
}

/// Each token is a slice of the source: its text is the characters between
/// two character positions, and its byte range runs between their byte
/// offsets. A line break is a token of its own, and no whitespace or comment
/// token holds one.
#[verifier::spinoff_prover]
#[verifier::rlimit(40)]
pub proof fn tokens_are_slices_of_the_source(source: Seq<char>)
    ensures
        forall|k: int|
            #![trigger lex_spec(source)[k]]
            0 <= k < lex_spec(source).len() ==> exists|a: int, b: int|
                0 <= a < b <= source.len() && #[trigger] source.subrange(a, b) == lex_spec(source)[k].text
                    && lex_spec(source)[k].range.start == byte_at(source, a) && lex_spec(source)[k].range.end
                    == byte_at(source, b),
        forall|k: int|
            0 <= k < lex_spec(source).len() && (#[trigger] lex_spec(source)[k]).kind == TokenKind::Newline
                ==> lex_spec(source)[k].text == seq!['\n'],
        forall|k: int|
            0 <= k < lex_spec(source).len() && ((#[trigger] lex_spec(source)[k]).kind == TokenKind::Whitespace
                || lex_spec(source)[k].kind == TokenKind::Comment) ==> !lex_spec(source)[k].text.contains('\n'),
{
    lemma_lex_spans(source, 0);
    lemma_lex_spans_token_at(source, 0);
    let sp = lex_spans(source, 0);
    let ts = lex_spec(source);
    assert forall|k: int| #![trigger ts[k]] 0 <= k < ts.len() implies exists|a: int, b: int|
        0 <= a < b <= source.len() && #[trigger] source.subrange(a, b) == ts[k].text && ts[k].range.start
            == byte_at(source, a) && ts[k].range.end == byte_at(source, b) by {
        let (_, a, b) = sp[k];
        assert(ts[k] == span_token(source, sp[k]));
        assert(source.subrange(a, b) == ts[k].text);
    }
    assert forall|k: int|
        0 <= k < ts.len() && (#[trigger] ts[k]).kind == TokenKind::Newline implies ts[k].text == seq!['\n'] by {
        let (kind, a, b) = sp[k];
        assert(ts[k] == span_token(source, sp[k]));
        lemma_token_at(source, a);
        let c = source[a];
        if c != '\n' {
            lemma_scan_run(source, a + 1, Run::Blank);
        }
        assert(b == a + 1);
        assert(ts[k].text =~= seq!['\n']);
    }
    assert forall|k: int|
        0 <= k < ts.len() && ((#[trigger] ts[k]).kind == TokenKind::Whitespace || ts[k].kind == TokenKind::Comment)
            implies !ts[k].text.contains('\n') by {
        let (kind, a, b) = sp[k];
        assert(ts[k] == span_token(source, sp[k]));
        let c = source[a];
        if kind == TokenKind::Whitespace {
            lemma_scan_run_holds(source, a + 1, Run::Blank);
            assert(c != '\n' && unicode_whitespace(c));
            assert(b == scan_run(source, a + 1, Run::Blank));
            assert forall|m: int| 0 <= m < ts[k].text.len() implies ts[k].text[m] != '\n' by {
                assert(ts[k].text[m] == source[a + m]);
            }
        } else {
            lemma_scan_run_holds(source, a + 1, Run::CommentBody);
            assert(c == '#');
            assert(b == scan_run(source, a + 1, Run::CommentBody));
            assert forall|m: int| 0 <= m < ts[k].text.len() implies ts[k].text[m] != '\n' by {
                assert(ts[k].text[m] == source[a + m]);
            }
        }
    }
}

/// Lexing loses nothing: the token texts, trivia included, concatenate to
/// the source, every token is non-empty, and the byte ranges of consecutive
/// tokens meet, from offset zero to the byte length of the source.
pub proof fn lex_is_lossless(source: Seq<char>)
    requires
        utf8_len(source) <= usize::MAX,
    ensures
        concat_texts(lex_spec(source)) == source,
        forall|k: int|
            0 <= k < lex_spec(source).len() ==> #[trigger] lex_spec(source)[k].text.len() > 0
                && lex_spec(source)[k].range.start < lex_spec(source)[k].range.end,
        forall|k: int|
            0 <= k < lex_spec(source).len() - 1 ==> #[trigger] lex_spec(source)[k].range.end
                == lex_spec(source)[k + 1].range.start,
        lex_spec(source).len() > 0 ==> lex_spec(source)[0].range.start == 0
            && lex_spec(source).last().range.end == utf8_len(source),
        source.len() == 0 <==> lex_spec(source).len() == 0,
{
    lemma_lex_spans(source, 0);
    let sp = lex_spans(source, 0);
    assert(source.subrange(0, source.len() as int) =~= source);
    assert forall|k: int| 0 <= k < lex_spec(source).len() implies #[trigger] lex_spec(
        source,
    )[k].text.len() > 0 && lex_spec(source)[k].range.start < lex_spec(source)[k].range.end by {
        let (_, a, b) = sp[k];
        lemma_utf8_len_mono(source, a + 1, b);
        lemma_utf8_len_take(source, a);
        lemma_utf8_len_mono(source, b, b);
    }
    if sp.len() > 0 {
        assert(source.take(0) =~= Seq::<char>::empty());
        assert(source.take(source.len() as int) =~= source);
    }
}

} // verus!

verus! {

// ---------------------------------------------------------------------------
// Document structure
// ---------------------------------------------------------------------------

/// Statement category recovered from a document body.
#[derive(Clone, Copy, Debug, PartialEq, Eq, Structural)]
pub enum StatementKind {
    /// Functionality declaration, for example `provides capacity [Wh]`.
    Provides,
    /// Requirement declaration, for example `requires mass [kg]`.
    Requires,
    /// Sub-problem instance declaration.
    Instance,
    /// Formula or constant assignment.
    Assignment,
    /// Feasibility/refinement/order relation.
    Constraint,
    /// External implementation binding, such as a YAML catalog resource.
    ImplementedBy,
    /// Interface implementation declaration.
    Implements,
    /// Library/model import.
    Import,
    /// Inline catalog implementation row.
    CatalogRecord,
    /// Recognized source line that is not yet semantically classified.
    BareExpression,
}

/// Source segment recovered from comma-separated syntax.
#[derive(Clone, Debug, PartialEq, Eq)]
pub struct SyntaxEntry {
    /// Entry text with surrounding trivia removed.
    pub text: String,
    /// Entry byte range.
    pub range: TextRange,
}

pub struct EntryView {
    pub text: Seq<char>,
    pub range: TextRange,
}

impl View for SyntaxEntry {
    type V = EntryView;

    open spec fn view(&self) -> EntryView {
        EntryView { text: self.text@, range: self.range }
    }
}

pub open spec fn entries_view(es: Seq<SyntaxEntry>) -> Seq<EntryView> {
    es.map_values(|e: SyntaxEntry| e@)
}

/// Statement recovered from a braced document body.
#[derive(Clone, Debug, PartialEq, Eq)]
pub struct Statement {
    /// Coarse category used by compiler/lowering passes.
    pub kind: StatementKind,
    /// Statement text with surrounding trivia removed.
    pub text: String,
    /// Statement byte range.
    pub range: TextRange,
}

pub struct StatementView {
    pub kind: StatementKind,
    pub text: Seq<char>,
    pub range: TextRange,
}

impl View for Statement {
    type V = StatementView;

    open spec fn view(&self) -> StatementView {
        StatementView { kind: self.kind, text: self.text@, range: self.range }
    }
}

pub open spec fn statements_view(ss: Seq<Statement>) -> Seq<StatementView> {
    ss.map_values(|s: Statement| s@)
}

pub open spec fn is_trivia_spec(k: TokenKind) -> bool {
    k == TokenKind::Whitespace || k == TokenKind::Newline || k == TokenKind::Comment
}

pub(crate) fn is_trivia(k: TokenKind) -> (r: bool)
    ensures
        r == is_trivia_spec(k),
{
    match k {
        TokenKind::Whitespace | TokenKind::Newline | TokenKind::Comment => true,
        _ => false,
    }
}

/// First index in `[i, end)` of a token that is not trivia.
pub open spec fn first_non_trivia_from(toks: Seq<TokenView>, i: int, end: int) -> Option<int>
    decreases end - i,
{
    if i >= end || i < 0 || i >= toks.len() {
        None
    } else if !is_trivia_spec(toks[i].kind) {
        Some(i)
    } else {
        first_non_trivia_from(toks, i + 1, end)
    }
}

/// Last index in `[start, j)` of a token that is not trivia.
pub open spec fn last_non_trivia_before(toks: Seq<TokenView>, start: int, j: int) -> Option<int>
    decreases j - start,
{
    if j <= start || j > toks.len() || start < 0 {
        None
    } else if !is_trivia_spec(toks[j - 1].kind) {
        Some(j - 1)
    } else {
        last_non_trivia_before(toks, start, j - 1)
    }
}

proof fn lemma_first_non_trivia(toks: Seq<TokenView>, i: int, end: int)
    ensures
        first_non_trivia_from(toks, i, end) matches Some(k) ==> i <= k < end && k < toks.len()
            && !is_trivia_spec(toks[k].kind),
    decreases end - i,
{
    if !(i >= end || i < 0 || i >= toks.len()) && is_trivia_spec(toks[i].kind) {
        lemma_first_non_trivia(toks, i + 1, end);
    }
}

proof fn lemma_last_non_trivia(toks: Seq<TokenView>, start: int, j: int)
    requires
        0 <= start,
        j <= toks.len(),
    ensures
        last_non_trivia_before(toks, start, j) matches Some(k) ==> start <= k < j && k < toks.len()
            && !is_trivia_spec(toks[k].kind),
        first_non_trivia_from(toks, start, j) is Some <==> last_non_trivia_before(toks, start, j) is Some,
        first_non_trivia_from(toks, start, j) is Some ==> first_non_trivia_from(toks, start, j).unwrap()
            <= last_non_trivia_before(toks, start, j).unwrap(),
    decreases j - start,
{
    lemma_first_non_trivia(toks, start, j);
    if !(j <= start || j > toks.len() || start < 0) && is_trivia_spec(toks[j - 1].kind) {
        lemma_last_non_trivia(toks, start, j - 1);
        lemma_first_non_trivia_prefix(toks, start, j);
    } else if !(j <= start || j > toks.len() || start < 0) {
        lemma_first_non_trivia_prefix(toks, start, j);
    }
}

proof fn lemma_first_non_trivia_prefix(toks: Seq<TokenView>, i: int, j: int)
    requires
        i < j,
        0 <= i,
        j <= toks.len(),
    ensures
        is_trivia_spec(toks[j - 1].kind) ==> first_non_trivia_from(toks, i, j) == first_non_trivia_from(toks, i, j - 1),
        !is_trivia_spec(toks[j - 1].kind) ==> first_non_trivia_from(toks, i, j) is Some,
    decreases j - i,
{
    if i < j - 1 && is_trivia_spec(toks[i].kind) {
        lemma_first_non_trivia_prefix(toks, i + 1, j);
    }
    if i == j - 1 {
        assert(first_non_trivia_from(toks, i, j - 1) is None);
        if is_trivia_spec(toks[i].kind) {
            assert(first_non_trivia_from(toks, i + 1, j) is None);
        }
    }
}

fn first_non_trivia_in_range(tokens: &[Token], start: usize, end: usize) -> (r: Option<usize>)
    ensures
        r is Some <==> first_non_trivia_from(tokens_view(tokens@), start as int, end as int) is Some,
        r is Some ==> r.unwrap() as int == first_non_trivia_from(tokens_view(tokens@), start as int, end as int).unwrap(),
{
    let ghost tv = tokens_view(tokens@);
    let mut i = start;
    while i < end && i < tokens.len()
        invariant
            start <= i,
            tv == tokens_view(tokens@),
            first_non_trivia_from(tv, i as int, end as int) == first_non_trivia_from(tv, start as int, end as int),
        decreases end - i,
    {
        if !is_trivia(tokens[i].kind) {
            return Some(i);
        }
        i = i + 1;
    }
    None
}

fn last_non_trivia_in_range(tokens: &[Token], start: usize, end: usize) -> (r: Option<usize>)
    ensures
        r is Some <==> last_non_trivia_before(tokens_view(tokens@), start as int, end as int) is Some,
        r is Some ==> r.unwrap() as int == last_non_trivia_before(tokens_view(tokens@), start as int, end as int).unwrap(),
{
    if end > tokens.len() || start >= end {
        return None;
    }
    let ghost tv = tokens_view(tokens@);
    let mut j = end;
    while j > start
        invariant
            start <= j <= end <= tokens@.len(),
            tv == tokens_view(tokens@),
            last_non_trivia_before(tv, start as int, j as int) == last_non_trivia_before(tv, start as int, end as int),
        decreases j,
    {
        if !is_trivia(tokens[j - 1].kind) {
            return Some(j - 1);
        }
        j = j - 1;
    }
    None
}

pub(crate) fn first_non_trivia_index(tokens: &[Token]) -> (r: Option<usize>)
    ensures
        r is Some <==> first_non_trivia_from(tokens_view(tokens@), 0, tokens@.len() as int) is Some,
        r is Some ==> r.unwrap() as int == first_non_trivia_from(tokens_view(tokens@), 0, tokens@.len() as int).unwrap(),
{
    first_non_trivia_in_range(tokens, 0, tokens.len())
}

/// Whether a token's text equals a literal.
pub(crate) fn text_is(t: &Token, lit: &str) -> (r: bool)
    ensures
        r == (t.text@ == lit@),
{
    let cs = chars_of(t.text.as_str());
    eq_lit(cs.as_slice(), lit)
}

/// The document kind that a keyword introduces.
pub open spec fn document_kind_of(t: Seq<char>) -> Option<DocumentKind> {
    if t == "mcdp"@ {
        Some(DocumentKind::Mcdp)
    } else if t == "dp"@ {
        Some(DocumentKind::Dp)
    } else if t == "catalog"@ {
        Some(DocumentKind::Catalog)
    } else if t == "choose"@ {
        Some(DocumentKind::Choose)
    } else if t == "intersection"@ {
        Some(DocumentKind::Intersection)
    } else if t == "interface"@ {
        Some(DocumentKind::Interface)
    } else if t == "poset"@ {
        Some(DocumentKind::Poset)
    } else if t == "template"@ {
        Some(DocumentKind::Template)
    } else if t == "specialize"@ {
        Some(DocumentKind::Specialize)
    } else {
        None
    }
}

/// The kind of a document: that of its first significant token.
pub open spec fn detect_kind_spec(toks: Seq<TokenView>) -> Option<DocumentKind> {
    match first_non_trivia_from(toks, 0, toks.len() as int) {
        Some(i) => document_kind_of(toks[i].text),
        None => None,
    }
}

fn detect_document_kind(tokens: &[Token]) -> (r: Option<DocumentKind>)
    ensures
        r == detect_kind_spec(tokens_view(tokens@)),
{
    proof {
        lemma_first_non_trivia(tokens_view(tokens@), 0, tokens@.len() as int);
    }
    let first = match first_non_trivia_index(tokens) {
        Some(i) => i,
        None => return None,
    };
    let t = &tokens[first];
    if text_is(t, "mcdp") {
        Some(DocumentKind::Mcdp)
    } else if text_is(t, "dp") {
        Some(DocumentKind::Dp)
    } else if text_is(t, "catalog") {
        Some(DocumentKind::Catalog)
    } else if text_is(t, "choose") {
        Some(DocumentKind::Choose)
    } else if text_is(t, "intersection") {
        Some(DocumentKind::Intersection)
    } else if text_is(t, "interface") {
        Some(DocumentKind::Interface)
    } else if text_is(t, "poset") {
        Some(DocumentKind::Poset)
    } else if text_is(t, "template") {
        Some(DocumentKind::Template)
    } else if text_is(t, "specialize") {
        Some(DocumentKind::Specialize)
    } else {
        None
    }
}

/// Index of the first token at or after `start` whose text is `text`.
pub open spec fn find_text_from(toks: Seq<TokenView>, start: int, text: Seq<char>) -> Option<int>
    decreases toks.len() - start,
{
    if start < 0 || start >= toks.len() {
        None
    } else if toks[start].text == text {
        Some(start)
    } else {
        find_text_from(toks, start + 1, text)
    }
}

proof fn lemma_find_text_from(toks: Seq<TokenView>, start: int, text: Seq<char>)
    requires
        0 <= start,
    ensures
        find_text_from(toks, start, text) matches Some(k) ==> start <= k < toks.len()
            && toks[k].text == text,
    decreases toks.len() - start,
{
    if start < toks.len() && toks[start].text != text {
        lemma_find_text_from(toks, start + 1, text);
    }
}

fn find_next_text(tokens: &[Token], start: usize, text: &str) -> (r: Option<usize>)
    ensures
        r is Some <==> find_text_from(tokens_view(tokens@), start as int, text@) is Some,
        r is Some ==> r.unwrap() as int == find_text_from(tokens_view(tokens@), start as int, text@).unwrap(),
{
    let ghost tv = tokens_view(tokens@);
    let mut i = start;
    while i < tokens.len()
        invariant
            start <= i,
            tv == tokens_view(tokens@),
            find_text_from(tv, i as int, text@) == find_text_from(tv, start as int, text@),
        decreases tokens@.len() - i,
    {
        if text_is(&tokens[i], text) {
            return Some(i);
        }
        i = i + 1;
    }
    None
}

/// Index of the delimiter that closes the one opened at `i`, counting nesting
/// depth from `depth` and skipping comments.
pub open spec fn matching_from(
    toks: Seq<TokenView>,
    i: int,
    open: Seq<char>,
    close: Seq<char>,
    depth: nat,
) -> Option<int>
    decreases toks.len() - i,
{
    if i < 0 || i >= toks.len() {
        None
    } else if toks[i].kind == TokenKind::Comment {
        matching_from(toks, i + 1, open, close, depth)
    } else if toks[i].text == open {
        matching_from(toks, i + 1, open, close, depth + 1)
    } else if toks[i].text == close {
        let d: nat = if depth > 0 {
            (depth - 1) as nat
        } else {
            0
        };
        if d == 0 {
            Some(i)
        } else {
            matching_from(toks, i + 1, open, close, d)
        }
    } else {
        matching_from(toks, i + 1, open, close, depth)
    }
}

proof fn lemma_matching_from(toks: Seq<TokenView>, i: int, open: Seq<char>, close: Seq<char>, depth: nat)
    requires
        0 <= i,
    ensures
        matching_from(toks, i, open, close, depth) matches Some(k) ==> i <= k < toks.len(),
    decreases toks.len() - i,
{
    if i < toks.len() {
        let d: nat = if depth > 0 {
            (depth - 1) as nat
        } else {
            0
        };
        lemma_matching_from(toks, i + 1, open, close, depth);
        lemma_matching_from(toks, i + 1, open, close, depth + 1);
        lemma_matching_from(toks, i + 1, open, close, d);
    }
}

proof fn lemma_matching_after(toks: Seq<TokenView>, open_index: int, o: Seq<char>, c: Seq<char>)
    requires
        0 <= open_index < toks.len(),
        toks[open_index].text == o,
        o != c,
    ensures
        matching_from(toks, open_index, o, c, 0) matches Some(k) ==> open_index < k < toks.len(),
{
    lemma_matching_from(toks, open_index + 1, o, c, 0);
    lemma_matching_from(toks, open_index + 1, o, c, 1);
}

fn find_matching_forward(tokens: &[Token], open_index: usize, open_text: &str, close_text: &str) -> (r:
    Option<usize>)
    ensures
        r is Some <==> matching_from(tokens_view(tokens@), open_index as int, open_text@, close_text@, 0) is Some,
        r is Some ==> r.unwrap() as int == matching_from(tokens_view(tokens@), open_index as int, open_text@, close_text@, 0).unwrap(),
{
    let ghost tv = tokens_view(tokens@);
    let mut depth: usize = 0;
    let mut i = open_index;
    while i < tokens.len()
        invariant
            open_index <= i,
            depth <= i - open_index,
            tv == tokens_view(tokens@),
            matching_from(tv, i as int, open_text@, close_text@, depth as nat) == matching_from(
                tv,
                open_index as int,
                open_text@,
                close_text@,
                0,
            ),
        decreases tokens@.len() - i,
    {
        let t = &tokens[i];
        if t.kind == TokenKind::Comment {
        } else if text_is(t, open_text) {
            depth = depth + 1;
        } else if text_is(t, close_text) {
            depth = if depth > 0 { depth - 1 } else { 0 };
            if depth == 0 {
                return Some(i);
            }
        }
        i = i + 1;
    }
    None
}

/// Nesting depth of braces, parentheses, brackets and angle brackets.
pub struct Depth {
    pub braces: nat,
    pub parentheses: nat,
    pub brackets: nat,
    pub angles: nat,
}

pub open spec fn dec(n: nat) -> nat {
    if n > 0 {
        (n - 1) as nat
    } else {
        0
    }
}

/// The depth after a token, comments being ignored.
pub open spec fn observe_token(d: Depth, t: TokenView) -> Depth {
    if t.kind == TokenKind::Comment {
        d
    } else if t.text == "{"@ {
        Depth { braces: d.braces + 1, ..d }
    } else if t.text == "}"@ {
        Depth { braces: dec(d.braces), ..d }
    } else if t.text == "("@ {
        Depth { parentheses: d.parentheses + 1, ..d }
    } else if t.text == ")"@ {
        Depth { parentheses: dec(d.parentheses), ..d }
    } else if t.text == "["@ {
        Depth { brackets: d.brackets + 1, ..d }
    } else if t.text == "]"@ {
        Depth { brackets: dec(d.brackets), ..d }
    } else if t.text == "⟨"@ {
        Depth { angles: d.angles + 1, ..d }
    } else if t.text == "⟩"@ {
        Depth { angles: dec(d.angles), ..d }
    } else {
        d
    }
}

pub open spec fn depth_zero(d: Depth) -> bool {
    d.braces == 0 && d.parentheses == 0 && d.brackets == 0 && d.angles == 0
}

pub open spec fn zero_depth() -> Depth {
    Depth { braces: 0, parentheses: 0, brackets: 0, angles: 0 }
}

struct DelimiterDepth {
    braces: usize,
    parentheses: usize,
    brackets: usize,
    angles: usize,
}

impl DelimiterDepth {
    spec fn view_depth(&self) -> Depth {
        Depth {
            braces: self.braces as nat,
            parentheses: self.parentheses as nat,
            brackets: self.brackets as nat,
            angles: self.angles as nat,
        }
    }

    spec fn bounded(&self, n: int) -> bool {
        self.braces <= n && self.parentheses <= n && self.brackets <= n && self.angles <= n
    }

    fn zero() -> (r: DelimiterDepth)
        ensures
            r.view_depth() == zero_depth(),
            r.bounded(0),
    {
        DelimiterDepth { braces: 0, parentheses: 0, brackets: 0, angles: 0 }
    }

    fn observe(&mut self, token: &Token, n: Ghost<int>)
        requires
            old(self).bounded(n@),
            n@ < usize::MAX,
        ensures
            final(self).view_depth() == observe_token(old(self).view_depth(), token@),
            final(self).bounded(n@ + 1),
    {
        if token.kind == TokenKind::Comment {
            return ;
        }
        if text_is(token, "{") {
            self.braces = self.braces + 1;
        } else if text_is(token, "}") {
            self.braces = if self.braces > 0 { self.braces - 1 } else { 0 };
        } else if text_is(token, "(") {
            self.parentheses = self.parentheses + 1;
        } else if text_is(token, ")") {
            self.parentheses = if self.parentheses > 0 { self.parentheses - 1 } else { 0 };
        } else if text_is(token, "[") {
            self.brackets = self.brackets + 1;
        } else if text_is(token, "]") {
            self.brackets = if self.brackets > 0 { self.brackets - 1 } else { 0 };
        } else if text_is(token, "⟨") {
            self.angles = self.angles + 1;
        } else if text_is(token, "⟩") {
            self.angles = if self.angles > 0 { self.angles - 1 } else { 0 };
        }
    }

    fn is_zero(&self) -> (r: bool)
        ensures
            r == depth_zero(self.view_depth()),
    {
        self.braces == 0 && self.parentheses == 0 && self.brackets == 0 && self.angles == 0
    }
}

pub proof fn lemma_concat_texts_push(ts: Seq<TokenView>, t: TokenView)
    ensures
        concat_texts(ts.push(t)) == concat_texts(ts) + t.text,
    decreases ts.len(),
{
    if ts.len() == 0 {
        assert(ts.push(t).drop_first() =~= Seq::<TokenView>::empty());
        assert(concat_texts(Seq::<TokenView>::empty()) =~= Seq::<char>::empty());
        assert(concat_texts(ts.push(t)) =~= t.text);
    } else {
        lemma_concat_texts_push(ts.drop_first(), t);
        assert(ts.push(t).drop_first() =~= ts.drop_first().push(t));
        assert(concat_texts(ts.push(t)) =~= ts[0].text + concat_texts(ts.drop_first().push(t)));
    }
}

/// Text of tokens `[a, b)`, trimmed.
pub open spec fn tokens_text_spec(toks: Seq<TokenView>, a: int, b: int) -> Seq<char> {
    trim(concat_texts(toks.subrange(a, b)))
}

fn tokens_text(tokens: &[Token], start: usize, end: usize) -> (r: String)
    requires
        start <= end <= tokens@.len(),
    ensures
        r@ == tokens_text_spec(tokens_view(tokens@), start as int, end as int),
{
    let ghost tv = tokens_view(tokens@);
    let mut out: Vec<char> = Vec::new();
    let mut i = start;
    while i < end
        invariant
            start <= i <= end <= tokens@.len(),
            tv == tokens_view(tokens@),
            out@ == concat_texts(tv.subrange(start as int, i as int)),
        decreases end - i,
    {
        push_chars(&mut out, tokens[i].text.as_str());
        proof {
            lemma_concat_texts_push(tv.subrange(start as int, i as int), tv[i as int]);
            assert(tv.subrange(start as int, i + 1) =~= tv.subrange(start as int, i as int).push(
                tv[i as int],
            ));
        }
        i = i + 1;
    }
    let (a, b) = trim_bounds(out.as_slice(), 0, out.len());
    assert(out@.subrange(0, out@.len() as int) =~= out@);
    string_from_range(out.as_slice(), a, b)
}

} // verus!

verus! {

/// The character sequences held by a vector of character vectors.
pub open spec fn texts_of(v: &Vec<Vec<char>>) -> Seq<Seq<char>> {
    v@.map_values(|x: Vec<char>| x@)
}

/// Texts of the tokens that are not trivia, in order.
pub open spec fn significant_texts(ts: Seq<TokenView>) -> Seq<Seq<char>>
    decreases ts.len(),
{
    if ts.len() == 0 {
        Seq::empty()
    } else if is_trivia_spec(ts.last().kind) {
        significant_texts(ts.drop_last())
    } else {
        significant_texts(ts.drop_last()).push(ts.last().text)
    }
}

pub open spec fn is_relation_operator_spec(t: Seq<char>) -> bool {
    t == "<="@ || t == ">="@ || t == "≤"@ || t == "≥"@ || t == "⪯"@ || t == "⪰"@
}

pub open spec fn starts_implemented_by_spec(sig: Seq<Seq<char>>) -> bool {
    (sig.len() > 0 && sig[0] == "implemented-by"@) || (sig.len() >= 3 && sig[0] == "implemented"@
        && sig[1] == "-"@ && sig[2] == "by"@)
}

pub open spec fn contains_catalog_arrow_spec(text: Seq<char>) -> bool {
    contains_seq(text, "<-|"@) || contains_seq(text, "|->"@) || contains_seq(text, "<--|"@)
        || contains_seq(text, "|-->"@) || contains_seq(text, "↤"@) || contains_seq(text, "↦"@)
        || contains_seq(text, "⟷"@)
}

/// Coarse statement category from its significant token texts and its text.
pub open spec fn classify_spec(sig: Seq<Seq<char>>, text: Seq<char>) -> StatementKind {
    if sig.len() == 0 {
        StatementKind::BareExpression
    } else if sig[0] == "provides"@ {
        StatementKind::Provides
    } else if sig[0] == "requires"@ {
        StatementKind::Requires
    } else if sig[0] == "from"@ || sig[0] == "import"@ {
        StatementKind::Import
    } else if starts_implemented_by_spec(sig) {
        StatementKind::ImplementedBy
    } else if sig[0] == "implements"@ {
        StatementKind::Implements
    } else if sig.contains("instance"@) {
        StatementKind::Instance
    } else if contains_catalog_arrow_spec(text) {
        StatementKind::CatalogRecord
    } else if exists|k: int| 0 <= k < sig.len() && is_relation_operator_spec(#[trigger] sig[k]) {
        StatementKind::Constraint
    } else if sig.contains("="@) {
        StatementKind::Assignment
    } else {
        StatementKind::BareExpression
    }
}

fn is_relation_operator(t: &[char]) -> (r: bool)
    ensures
        r == is_relation_operator_spec(t@),
{
    eq_lit(t, "<=") || eq_lit(t, ">=") || eq_lit(t, "≤") || eq_lit(t, "≥") || eq_lit(t, "⪯")
        || eq_lit(t, "⪰")
}

fn contains_lit(text: &[char], lit: &str) -> (r: bool)
    ensures
        r == contains_seq(text@, lit@),
{
    find_lit(text, lit, 0).is_some()
}

fn contains_catalog_arrow(text: &[char]) -> (r: bool)
    ensures
        r == contains_catalog_arrow_spec(text@),
{
    contains_lit(text, "<-|") || contains_lit(text, "|->") || contains_lit(text, "<--|")
        || contains_lit(text, "|-->") || contains_lit(text, "↤") || contains_lit(text, "↦")
        || contains_lit(text, "⟷")
}

fn starts_implemented_by(sig: &Vec<Vec<char>>) -> (r: bool)
    ensures
        r == starts_implemented_by_spec(texts_of(sig)),
{
    (sig.len() > 0 && eq_lit(sig[0].as_slice(), "implemented-by")) || (sig.len() >= 3 && eq_lit(
        sig[0].as_slice(),
        "implemented",
    ) && eq_lit(sig[1].as_slice(), "-") && eq_lit(sig[2].as_slice(), "by"))
}

fn sig_contains(sig: &Vec<Vec<char>>, lit: &str) -> (r: bool)
    ensures
        r == texts_of(sig).contains(lit@),
{
    let mut i: usize = 0;
    while i < sig.len()
        invariant
            i <= sig@.len(),
            forall|k: int| 0 <= k < i ==> texts_of(sig)[k] != lit@,
        decreases sig@.len() - i,
    {
        if eq_lit(sig[i].as_slice(), lit) {
            assert(texts_of(sig)[i as int] == lit@);
            return true;
        }
        i = i + 1;
    }
    false
}

fn sig_has_relation(sig: &Vec<Vec<char>>) -> (r: bool)
    ensures
        r == exists|k: int| 0 <= k < texts_of(sig).len() && is_relation_operator_spec(
            #[trigger] texts_of(sig)[k],
        ),
{
    let mut i: usize = 0;
    while i < sig.len()
        invariant
            i <= sig@.len(),
            forall|k: int| 0 <= k < i ==> !is_relation_operator_spec(#[trigger] texts_of(sig)[k]),
        decreases sig@.len() - i,
    {
        if is_relation_operator(sig[i].as_slice()) {
            assert(is_relation_operator_spec(texts_of(sig)[i as int]));
            return true;
        }
        i = i + 1;
    }
    false
}

fn significant_of(tokens: &[Token], start: usize, end: usize) -> (r: Vec<Vec<char>>)
    requires
        start <= end <= tokens@.len(),
    ensures
        texts_of(&r) == significant_texts(tokens_view(tokens@).subrange(start as int, end as int)),
{
    let ghost tv = tokens_view(tokens@);
    let mut r: Vec<Vec<char>> = Vec::new();
    let mut i = start;
    while i < end
        invariant
            start <= i <= end <= tokens@.len(),
            tv == tokens_view(tokens@),
            texts_of(&r) == significant_texts(tv.subrange(start as int, i as int)),
        decreases end - i,
    {
        let ghost before = texts_of(&r);
        assert(tv.subrange(start as int, i + 1).drop_last() =~= tv.subrange(start as int, i as int));
        if !is_trivia(tokens[i].kind) {
            let t = chars_of(tokens[i].text.as_str());
            r.push(t);
            assert(texts_of(&r) =~= before.push(tv[i as int].text));
        }
        i = i + 1;
    }
    r
}

fn classify_statement(tokens: &[Token], start: usize, end: usize, text: &[char]) -> (r: StatementKind)
    requires
        start <= end <= tokens@.len(),
    ensures
        r == classify_spec(
            significant_texts(tokens_view(tokens@).subrange(start as int, end as int)),
            text@,
        ),
{
    let sig = significant_of(tokens, start, end);
    if sig.len() == 0 {
        return StatementKind::BareExpression;
    }
    assert(texts_of(&sig)[0] == sig@[0]@);
    let first = sig[0].as_slice();
    if eq_lit(first, "provides") {
        StatementKind::Provides
    } else if eq_lit(first, "requires") {
        StatementKind::Requires
    } else if eq_lit(first, "from") || eq_lit(first, "import") {
        StatementKind::Import
    } else if starts_implemented_by(&sig) {
        StatementKind::ImplementedBy
    } else if eq_lit(first, "implements") {
        StatementKind::Implements
    } else if sig_contains(&sig, "instance") {
        StatementKind::Instance
    } else if contains_catalog_arrow(text) {
        StatementKind::CatalogRecord
    } else if sig_has_relation(&sig) {
        StatementKind::Constraint
    } else if sig_contains(&sig, "=") {
        StatementKind::Assignment
    } else {
        StatementKind::BareExpression
    }
}

/// The statement recovered from tokens `[a, b)`, if any of them is significant.
pub open spec fn build_statement_spec(toks: Seq<TokenView>, a: int, b: int) -> Option<StatementView> {
    match (first_non_trivia_from(toks, a, b), last_non_trivia_before(toks, a, b)) {
        (Some(f), Some(l)) => {
            let text = tokens_text_spec(toks, f, l + 1);
            Some(
                StatementView {
                    kind: classify_spec(significant_texts(toks.subrange(f, l + 1)), text),
                    text,
                    range: TextRange { start: toks[f].range.start, end: toks[l].range.end },
                },
            )
        },
        _ => None,
    }
}

/// The entry recovered from tokens `[a, b)`, if any of them is significant.
pub open spec fn segment_entry_spec(toks: Seq<TokenView>, a: int, b: int) -> Option<EntryView> {
    match (first_non_trivia_from(toks, a, b), last_non_trivia_before(toks, a, b)) {
        (Some(f), Some(l)) => Some(
            EntryView {
                text: tokens_text_spec(toks, f, l + 1),
                range: TextRange { start: toks[f].range.start, end: toks[l].range.end },
            },
        ),
        _ => None,
    }
}

fn build_statement(tokens: &[Token], start: usize, end: usize) -> (r: Option<Statement>)
    requires
        start <= end <= tokens@.len(),
    ensures
        match r {
            Some(s) => build_statement_spec(tokens_view(tokens@), start as int, end as int) == Some(s@),
            None => build_statement_spec(tokens_view(tokens@), start as int, end as int) is None,
        },
{
    proof {
        lemma_last_non_trivia(tokens_view(tokens@), start as int, end as int);
    }
    let first = match first_non_trivia_in_range(tokens, start, end) {
        Some(f) => f,
        None => return None,
    };
    let last = match last_non_trivia_in_range(tokens, start, end) {
        Some(l) => l,
        None => return None,
    };
    proof {
        let tv = tokens_view(tokens@);
        lemma_first_non_trivia(tv, start as int, end as int);
        let fs = first_non_trivia_from(tv, start as int, end as int);
        let ls = last_non_trivia_before(tv, start as int, end as int);
        assert(fs is Some);
        assert(fs.unwrap() as usize == first);
        assert(ls.unwrap() as usize == last);
    }
    assert(first <= last < end);
    let text = tokens_text(tokens, first, last + 1);
    let tv = chars_of(text.as_str());
    let kind = classify_statement(tokens, first, last + 1, tv.as_slice());
    Some(
        Statement {
            kind,
            text,
            range: TextRange { start: tokens[first].range.start, end: tokens[last].range.end },
        },
    )
}

fn segment_entry(tokens: &[Token], start: usize, end: usize) -> (r: Option<SyntaxEntry>)
    requires
        end <= tokens@.len(),
    ensures
        match r {
            Some(e) => segment_entry_spec(tokens_view(tokens@), start as int, end as int) == Some(e@),
            None => segment_entry_spec(tokens_view(tokens@), start as int, end as int) is None,
        },
{
    if start >= end {
        return None;
    }
    proof {
        lemma_last_non_trivia(tokens_view(tokens@), start as int, end as int);
    }
    let first = match first_non_trivia_in_range(tokens, start, end) {
        Some(f) => f,
        None => return None,
    };
    let last = match last_non_trivia_in_range(tokens, start, end) {
        Some(l) => l,
        None => return None,
    };
    proof {
        let tv = tokens_view(tokens@);
        lemma_first_non_trivia(tv, start as int, end as int);
        let fs = first_non_trivia_from(tv, start as int, end as int);
        let ls = last_non_trivia_before(tv, start as int, end as int);
        assert(fs is Some);
        assert(fs.unwrap() as usize == first);
        assert(ls.unwrap() as usize == last);
    }
    assert(first <= last < end);
    Some(
        SyntaxEntry {
            text: tokens_text(tokens, first, last + 1),
            range: TextRange { start: tokens[first].range.start, end: tokens[last].range.end },
        },
    )
}

pub open spec fn push_some<T>(s: Seq<T>, o: Option<T>) -> Seq<T> {
    match o {
        Some(x) => s.push(x),
        None => s,
    }
}

/// State of the splitter after the tokens `[start, i)`: where the current
/// segment starts, the nesting depth, and the segments `[a, b)` closed so far
/// (a segment ends at a separator found at depth zero).
pub open spec fn split_state(toks: Seq<TokenView>, start: int, i: int, by_line: bool) -> (
    int,
    Depth,
    Seq<(int, int)>,
)
    decreases i - start,
{
    if i <= start {
        (start, zero_depth(), Seq::empty())
    } else {
        let (ss, d, segs) = split_state(toks, start, i - 1, by_line);
        let t = toks[i - 1];
        let d2 = observe_token(d, t);
        let is_sep = if by_line {
            t.kind == TokenKind::Newline || t.text == ";"@
        } else {
            t.text == ","@
        };
        if depth_zero(d2) && is_sep {
            (i, d2, segs.push((ss, i - 1)))
        } else {
            (ss, d2, segs)
        }
    }
}

/// All segments of `[start, end)`: the closed ones and the trailing one.
pub open spec fn segments(toks: Seq<TokenView>, start: int, end: int, by_line: bool) -> Seq<(int, int)> {
    let (ss, _, segs) = split_state(toks, start, end, by_line);
    segs.push((ss, end))
}

/// Statements of the given segments, skipping segments without significant tokens.
pub open spec fn statements_of(toks: Seq<TokenView>, segs: Seq<(int, int)>) -> Seq<StatementView>
    decreases segs.len(),
{
    if segs.len() == 0 {
        Seq::empty()
    } else {
        push_some(
            statements_of(toks, segs.drop_last()),
            build_statement_spec(toks, segs.last().0, segs.last().1),
        )
    }
}

/// Entries of the given segments, skipping segments without significant tokens.
pub open spec fn entries_of(toks: Seq<TokenView>, segs: Seq<(int, int)>) -> Seq<EntryView>
    decreases segs.len(),
{
    if segs.len() == 0 {
        Seq::empty()
    } else {
        push_some(
            entries_of(toks, segs.drop_last()),
            segment_entry_spec(toks, segs.last().0, segs.last().1),
        )
    }
}

/// Statements of `[start, end)`, split at newlines and `;` outside delimiters.
pub open spec fn split_statements_spec(toks: Seq<TokenView>, start: int, end: int) -> Seq<StatementView> {
    statements_of(toks, segments(toks, start, end, true))
}

/// Entries of `[start, end)`, split at `,` outside delimiters.
pub open spec fn split_entries_spec(toks: Seq<TokenView>, start: int, end: int) -> Seq<EntryView> {
    entries_of(toks, segments(toks, start, end, false))
}

proof fn lemma_split_state_bounds(toks: Seq<TokenView>, start: int, i: int, by_line: bool)
    requires
        start <= i,
    ensures
        start <= split_state(toks, start, i, by_line).0 <= i,
        forall|k: int| 0 <= k < split_state(toks, start, i, by_line).2.len() ==>
            start <= (#[trigger] split_state(toks, start, i, by_line).2[k]).0
                <= split_state(toks, start, i, by_line).2[k].1 < i,
    decreases i - start,
{
    if i > start {
        lemma_split_state_bounds(toks, start, i - 1, by_line);
    }
}

fn split_segments(tokens: &[Token], start: usize, end: usize, by_line: bool) -> (r: Vec<(usize, usize)>)
    requires
        start <= end <= tokens@.len(),
    ensures
        r@.len() == segments(tokens_view(tokens@), start as int, end as int, by_line).len(),
        forall|k: int| 0 <= k < r@.len() ==> (#[trigger] r@[k]).0 as int == segments(tokens_view(tokens@), start as int, end as int, by_line)[k].0
            && r@[k].1 as int == segments(tokens_view(tokens@), start as int, end as int, by_line)[k].1,
        forall|k: int| 0 <= k < r@.len() ==> start <= (#[trigger] r@[k]).0 <= r@[k].1 <= end,
{
    let ghost tv = tokens_view(tokens@);
    let mut segs: Vec<(usize, usize)> = Vec::new();
    let mut segment_start = start;
    let mut depth = DelimiterDepth::zero();
    let mut i = start;
    while i < end
        invariant
            start <= i <= end <= tokens@.len(),
            tv == tokens_view(tokens@),
            depth.bounded(i - start),
            split_state(tv, start as int, i as int, by_line).0 == segment_start as int,
            split_state(tv, start as int, i as int, by_line).1 == depth.view_depth(),
            segs@.len() == split_state(tv, start as int, i as int, by_line).2.len(),
            forall|k: int| 0 <= k < segs@.len() ==> (#[trigger] segs@[k]).0 as int == split_state(tv, start as int, i as int, by_line).2[k].0
                && segs@[k].1 as int == split_state(tv, start as int, i as int, by_line).2[k].1,
            forall|k: int| 0 <= k < segs@.len() ==> start <= (#[trigger] segs@[k]).0 <= segs@[k].1 < i,
            start <= segment_start <= i,
        decreases end - i,
    {
        let token = &tokens[i];
        depth.observe(token, Ghost((i - start) as int));
        let is_sep = if by_line {
            token.kind == TokenKind::Newline || text_is(token, ";")
        } else {
            text_is(token, ",")
        };
        if depth.is_zero() && is_sep {
            segs.push((segment_start, i));
            segment_start = i + 1;
        }
        i = i + 1;
    }
    segs.push((segment_start, end));
    segs
}

fn statements_of_segments(tokens: &[Token], segs: &Vec<(usize, usize)>, end: usize) -> (r: Vec<Statement>)
    requires
        end <= tokens@.len(),
        forall|k: int| 0 <= k < segs@.len() ==> (#[trigger] segs@[k]).0 <= segs@[k].1 <= end,
    ensures
        statements_view(r@) == statements_of(tokens_view(tokens@), segs@.map_values(|p: (usize, usize)| (p.0 as int, p.1 as int))),
{
    let ghost tv = tokens_view(tokens@);
    let ghost isegs = segs@.map_values(|p: (usize, usize)| (p.0 as int, p.1 as int));
    let mut out: Vec<Statement> = Vec::new();
    let mut k: usize = 0;
    while k < segs.len()
        invariant
            k <= segs@.len(),
            end <= tokens@.len(),
            tv == tokens_view(tokens@),
            isegs == segs@.map_values(|p: (usize, usize)| (p.0 as int, p.1 as int)),
            forall|j: int| 0 <= j < segs@.len() ==> (#[trigger] segs@[j]).0 <= segs@[j].1 <= end,
            statements_view(out@) == statements_of(tv, isegs.take(k as int)),
        decreases segs@.len() - k,
    {
        let (a, b) = segs[k];
        let st = build_statement(tokens, a, b);
        proof {
            assert(isegs.take(k + 1).drop_last() =~= isegs.take(k as int));
            assert(isegs.take(k + 1).last() == (a as int, b as int));
        }
        match st {
            Some(s) => {
                out.push(s);
                assert(statements_view(out@) =~= statements_of(tv, isegs.take(k + 1)));
            },
            None => {
            },
        }
        k = k + 1;
    }
    assert(isegs.take(segs@.len() as int) =~= isegs);
    out
}

fn entries_of_segments(tokens: &[Token], segs: &Vec<(usize, usize)>, end: usize) -> (r: Vec<SyntaxEntry>)
    requires
        end <= tokens@.len(),
        forall|k: int| 0 <= k < segs@.len() ==> (#[trigger] segs@[k]).0 <= segs@[k].1 <= end,
    ensures
        entries_view(r@) == entries_of(tokens_view(tokens@), segs@.map_values(|p: (usize, usize)| (p.0 as int, p.1 as int))),
{
    let ghost tv = tokens_view(tokens@);
    let ghost isegs = segs@.map_values(|p: (usize, usize)| (p.0 as int, p.1 as int));
    let mut out: Vec<SyntaxEntry> = Vec::new();
    let mut k: usize = 0;
    while k < segs.len()
        invariant
            k <= segs@.len(),
            end <= tokens@.len(),
            tv == tokens_view(tokens@),
            isegs == segs@.map_values(|p: (usize, usize)| (p.0 as int, p.1 as int)),
            forall|j: int| 0 <= j < segs@.len() ==> (#[trigger] segs@[j]).0 <= segs@[j].1 <= end,
            entries_view(out@) == entries_of(tv, isegs.take(k as int)),
        decreases segs@.len() - k,
    {
        let (a, b) = segs[k];
        let e = segment_entry(tokens, a, b);
        proof {
            assert(isegs.take(k + 1).drop_last() =~= isegs.take(k as int));
            assert(isegs.take(k + 1).last() == (a as int, b as int));
        }
        match e {
            Some(x) => {
                out.push(x);
                assert(entries_view(out@) =~= entries_of(tv, isegs.take(k + 1)));
            },
            None => {
            },
        }
        k = k + 1;
    }
    assert(isegs.take(segs@.len() as int) =~= isegs);
    out
}

fn split_statements(tokens: &[Token], start: usize, end: usize) -> (r: Vec<Statement>)
    requires
        start <= end <= tokens@.len(),
    ensures
        statements_view(r@) == split_statements_spec(tokens_view(tokens@), start as int, end as int),
{
    let segs = split_segments(tokens, start, end, true);
    let ghost segv = segments(tokens_view(tokens@), start as int, end as int, true);
    assert(segs@.map_values(|p: (usize, usize)| (p.0 as int, p.1 as int)) =~= segv);
    statements_of_segments(tokens, &segs, end)
}

fn split_entries(tokens: &[Token], start: usize, end: usize) -> (r: Vec<SyntaxEntry>)
    requires
        start <= end <= tokens@.len(),
    ensures
        entries_view(r@) == split_entries_spec(tokens_view(tokens@), start as int, end as int),
{
    let segs = split_segments(tokens, start, end, false);
    let ghost segv = segments(tokens_view(tokens@), start as int, end as int, false);
    assert(segs@.map_values(|p: (usize, usize)| (p.0 as int, p.1 as int)) =~= segv);
    entries_of_segments(tokens, &segs, end)
}

} // verus!

verus! {

// ---------------------------------------------------------------------------
// Delimiter balance
// ---------------------------------------------------------------------------

pub open spec fn is_open_delimiter(t: Seq<char>) -> bool {
    t == "{"@ || t == "("@ || t == "["@ || t == "⟨"@
}

pub open spec fn is_close_delimiter(t: Seq<char>) -> bool {
    t == "}"@ || t == ")"@ || t == "]"@ || t == "⟩"@
}

pub open spec fn expected_open_spec(close: Seq<char>) -> Seq<char> {
    if close == "}"@ {
        "{"@
    } else if close == ")"@ {
        "("@
    } else if close == "]"@ {
        "["@
    } else if close == "⟩"@ {
        "⟨"@
    } else {
        ""@
    }
}

pub open spec fn unbalanced_code() -> Seq<char> {
    "syntax.unbalanced-delimiter"@
}

/// Open delimiters still waiting for their close, and the diagnostics so far,
/// after the given tokens.
pub open spec fn balance_state(sid: Seq<char>, toks: Seq<TokenView>) -> (
    Seq<(Seq<char>, TextRange)>,
    Seq<DiagnosticView>,
)
    decreases toks.len(),
{
    if toks.len() == 0 {
        (Seq::empty(), Seq::empty())
    } else {
        let (st, ds) = balance_state(sid, toks.drop_last());
        let t = toks.last();
        if t.kind == TokenKind::Comment {
            (st, ds)
        } else if is_open_delimiter(t.text) {
            (st.push((t.text, t.range)), ds)
        } else if is_close_delimiter(t.text) {
            if st.len() == 0 {
                (
                    st,
                    ds.push(
                        error_view(
                            unbalanced_code(),
                            "unexpected closing delimiter `"@ + t.text + "`"@,
                        ).with_span(SpanView { source: sid, range: t.range }),
                    ),
                )
            } else if st.last().0 == expected_open_spec(t.text) {
                (st.drop_last(), ds)
            } else {
                (
                    st.drop_last(),
                    ds.push(
                        error_view(
                            unbalanced_code(),
                            "closing delimiter `"@ + t.text + "` does not match `"@ + st.last().0
                                + "`"@,
                        ).with_span(SpanView { source: sid, range: st.last().1 }),
                    ),
                )
            }
        } else {
            (st, ds)
        }
    }
}

/// One diagnostic per delimiter that is never closed, outermost first.
pub open spec fn unclosed_diagnostics(sid: Seq<char>, st: Seq<(Seq<char>, TextRange)>) -> Seq<
    DiagnosticView,
> {
    st.map_values(
        |p: (Seq<char>, TextRange)|
            error_view(unbalanced_code(), "unclosed delimiter `"@ + p.0 + "`"@).with_span(
                SpanView { source: sid, range: p.1 },
            ),
    )
}

/// Diagnostics for delimiters that do not match, in token order, then for
/// those never closed.
pub open spec fn balance_diagnostics(sid: Seq<char>, toks: Seq<TokenView>) -> Seq<DiagnosticView> {
    let (st, ds) = balance_state(sid, toks);
    ds + unclosed_diagnostics(sid, st)
}

/// Reading delimiters with a stack: the open delimiters left after the
/// tokens, or `None` once a closing delimiter meets no open one or one of
/// another kind. Comments are skipped.
pub open spec fn nesting(toks: Seq<TokenView>) -> Option<Seq<Seq<char>>>
    decreases toks.len(),
{
    if toks.len() == 0 {
        Some(Seq::empty())
    } else {
        match nesting(toks.drop_last()) {
            None => None,
            Some(st) => {
                let t = toks.last();
                if t.kind == TokenKind::Comment {
                    Some(st)
                } else if is_open_delimiter(t.text) {
                    Some(st.push(t.text))
                } else if is_close_delimiter(t.text) {
                    if st.len() > 0 && st.last() == expected_open_spec(t.text) {
                        Some(st.drop_last())
                    } else {
                        None
                    }
                } else {
                    Some(st)
                }
            },
        }
    }
}

/// The delimiters of the tokens nest: each closing one matches the latest
/// open one still unmatched, and none stays open.
pub open spec fn well_nested(toks: Seq<TokenView>) -> bool {
    nesting(toks) == Some(Seq::<Seq<char>>::empty())
}

/// A delimiter diagnostic: an error with the unbalanced-delimiter code, at
/// a span of the document.
pub open spec fn is_delimiter_error(sid: Seq<char>, d: DiagnosticView) -> bool {
    d.code == unbalanced_code() && d.severity == Severity::Error && (d.span matches Some(sp) && sp.source == sid)
}

proof fn lemma_balance_state(sid: Seq<char>, toks: Seq<TokenView>)
    ensures
        ({
            let (st, ds) = balance_state(sid, toks);
            &&& forall|i: int| 0 <= i < ds.len() ==> is_delimiter_error(sid, #[trigger] ds[i])
            &&& (ds.len() == 0 <==> nesting(toks) is Some)
            &&& ds.len() == 0 ==> nesting(toks) == Some(st.map_values(|p: (Seq<char>, TextRange)| p.0))
        }),
    decreases toks.len(),
{
    if toks.len() > 0 {
        lemma_balance_state(sid, toks.drop_last());
        let (st0, ds0) = balance_state(sid, toks.drop_last());
        let (st, ds) = balance_state(sid, toks);
        let t = toks.last();
        let f = |p: (Seq<char>, TextRange)| p.0;
        assert(ds.len() >= ds0.len());
        assert forall|i: int| 0 <= i < ds.len() implies is_delimiter_error(sid, #[trigger] ds[i]) by {
            if i < ds0.len() {
                assert(ds[i] == ds0[i]);
            }
        }
        if ds0.len() == 0 && t.kind != TokenKind::Comment {
            if is_open_delimiter(t.text) {
                assert(st.map_values(f) =~= st0.map_values(f).push(t.text));
            } else if is_close_delimiter(t.text) && st0.len() > 0 {
                assert(st0.map_values(f).last() == st0.last().0);
                assert(st.map_values(f) =~= st0.map_values(f).drop_last());
            }
        }
    }
}

/// Delimiter balance reports only unbalanced-delimiter errors at spans of
/// the document, and none exactly when the delimiters nest.
pub proof fn balance_is_well_nesting(sid: Seq<char>, toks: Seq<TokenView>)
    ensures
        forall|i: int|
            0 <= i < balance_diagnostics(sid, toks).len() ==> is_delimiter_error(
                sid,
                #[trigger] balance_diagnostics(sid, toks)[i],
            ),
        balance_diagnostics(sid, toks).len() == 0 <==> well_nested(toks),
{
    lemma_balance_state(sid, toks);
    let (st, ds) = balance_state(sid, toks);
    let all = balance_diagnostics(sid, toks);
    let un = unclosed_diagnostics(sid, st);
    assert(all == ds + un);
    assert forall|i: int| 0 <= i < all.len() implies is_delimiter_error(sid, #[trigger] all[i]) by {
        if i < ds.len() {
            assert(all[i] == ds[i]);
        } else {
            assert(all[i] == un[i - ds.len()]);
        }
    }
    if ds.len() == 0 {
        let f = |p: (Seq<char>, TextRange)| p.0;
        if st.len() == 0 {
            assert(st.map_values(f) =~= Seq::<Seq<char>>::empty());
        } else {
            assert(st.map_values(f).len() > 0);
        }
    }
}

fn expected_open_delimiter(close: &[char]) -> (r: &'static str)
    ensures
        r@ == expected_open_spec(close@),
{
    if eq_lit(close, "}") {
        "{"
    } else if eq_lit(close, ")") {
        "("
    } else if eq_lit(close, "]") {
        "["
    } else if eq_lit(close, "⟩") {
        "⟨"
    } else {
        proof {
            reveal_strlit("");
        }
        ""
    }
}

/// A string made of the given parts in order.

pub open spec fn stack_view(st: Seq<(Vec<char>, TextRange)>) -> Seq<(Seq<char>, TextRange)> {
    st.map_values(|p: (Vec<char>, TextRange)| (p.0@, p.1))
}

fn check_balanced_delimiters(source_id: &SourceId, tokens: &[Token], diagnostics: &mut Vec<Diagnostic>)
    ensures
        diagnostics_view(final(diagnostics)@) == diagnostics_view(old(diagnostics)@)
            + balance_diagnostics(source_id@, tokens_view(tokens@)),
{
    let ghost tv = tokens_view(tokens@);
    let ghost base = diagnostics_view(diagnostics@);
    let mut stack: Vec<(Vec<char>, TextRange)> = Vec::new();
    let mut i: usize = 0;
    proof {
        assert(tv.take(0) =~= Seq::<TokenView>::empty());
    }
    while i < tokens.len()
        invariant
            i <= tokens@.len(),
            tv == tokens_view(tokens@),
            stack_view(stack@) == balance_state(source_id@, tv.take(i as int)).0,
            diagnostics_view(diagnostics@) == base + balance_state(source_id@, tv.take(i as int)).1,
        decreases tokens@.len() - i,
    {
        let token = &tokens[i];
        let ghost before = diagnostics_view(diagnostics@);
        proof {
            assert(tv.take(i + 1).drop_last() =~= tv.take(i as int));
            assert(tv.take(i + 1).last() == token@);
        }
        if token.kind != TokenKind::Comment {
            let text = chars_of(token.text.as_str());
            let is_open = eq_lit(text.as_slice(), "{") || eq_lit(text.as_slice(), "(") || eq_lit(
                text.as_slice(),
                "[",
            ) || eq_lit(text.as_slice(), "⟨");
            let is_close = eq_lit(text.as_slice(), "}") || eq_lit(text.as_slice(), ")") || eq_lit(
                text.as_slice(),
                "]",
            ) || eq_lit(text.as_slice(), "⟩");
            if is_open {
                stack.push((text, token.range));
                assert(stack_view(stack@) =~= balance_state(source_id@, tv.take(i + 1)).0);
            } else if is_close {
                let expected = expected_open_delimiter(text.as_slice());
                match stack.pop() {
                    None => {
                        let msg = join3("unexpected closing delimiter `", text.as_slice(), "`");
                        let d = Diagnostic::error_with_message("syntax.unbalanced-delimiter", msg).with_span(
                            TextSpan::new(source_id.duplicate(), token.range),
                        );
                        diagnostics.push(d);
                        assert(diagnostics_view(diagnostics@) =~= before.push(d@));
                    },
                    Some((open, open_range)) => {
                        proof {
                            assert(stack_view(stack@) =~= balance_state(source_id@, tv.take(i as int)).0.drop_last());
                        }
                        if eq_lit(open.as_slice(), expected) {
                        } else {
                            let msg = join5(
                                "closing delimiter `",
                                text.as_slice(),
                                "` does not match `",
                                open.as_slice(),
                                "`",
                            );
                            let d = Diagnostic::error_with_message("syntax.unbalanced-delimiter", msg).with_span(
                                TextSpan::new(source_id.duplicate(), open_range),
                            );
                            diagnostics.push(d);
                            assert(diagnostics_view(diagnostics@) =~= before.push(d@));
                        }
                    },
                }
            }
        }
        i = i + 1;
    }
    proof {
        assert(tv.take(i as int) =~= tv);
    }
    let ghost mid = diagnostics_view(diagnostics@);
    let mut k: usize = 0;
    while k < stack.len()
        invariant
            k <= stack@.len(),
            diagnostics_view(diagnostics@) == mid + unclosed_diagnostics(source_id@, stack_view(stack@).take(k as int)),
        decreases stack@.len() - k,
    {
        let msg = join3("unclosed delimiter `", stack[k].0.as_slice(), "`");
        let d = Diagnostic::error_with_message("syntax.unbalanced-delimiter", msg).with_span(
            TextSpan::new(source_id.duplicate(), stack[k].1),
        );
        let ghost before = diagnostics_view(diagnostics@);
        diagnostics.push(d);
        proof {
            assert(diagnostics_view(diagnostics@) =~= before.push(d@));
            assert(stack_view(stack@).take(k + 1) =~= stack_view(stack@).take(k as int).push(stack_view(stack@)[k as int]));
            assert(unclosed_diagnostics(source_id@, stack_view(stack@).take(k + 1)) =~= unclosed_diagnostics(source_id@, stack_view(stack@).take(k as int)).push(d@));
        }
        k = k + 1;
    }
    proof {
        assert(stack_view(stack@).take(k as int) =~= stack_view(stack@));
    }
}

} // verus!

verus! {

// ---------------------------------------------------------------------------
// Document bodies
// ---------------------------------------------------------------------------

/// Top-level body shape.
#[derive(Clone, Debug, PartialEq, Eq)]
pub enum SyntaxBody {
    /// `{ ... }` body split into top-level statements.
    Braced {
        /// Statements recovered from the body.
        statements: Vec<Statement>,
    },
    /// `( ... )` body split into comma-separated entries.
    Parenthesized {
        /// Entries recovered from the body.
        entries: Vec<SyntaxEntry>,
    },
    /// `template [...] mcdp { ... }` body.
    Template {
        /// Template parameters.
        parameters: Vec<SyntaxEntry>,
        /// MCDP statements in the template body.
        statements: Vec<Statement>,
    },
    /// `specialize [...] target` body.
    Specialize {
        /// Specialization bindings.
        parameters: Vec<SyntaxEntry>,
        /// Target expression after the binding list.
        target: Option<SyntaxEntry>,
    },
    /// Body could not be recovered.
    Empty,
}

pub enum SyntaxBodyView {
    Braced { statements: Seq<StatementView> },
    Parenthesized { entries: Seq<EntryView> },
    Template { parameters: Seq<EntryView>, statements: Seq<StatementView> },
    Specialize { parameters: Seq<EntryView>, target: Option<EntryView> },
    Empty,
}

impl View for SyntaxBody {
    type V = SyntaxBodyView;

    open spec fn view(&self) -> SyntaxBodyView {
        match self {
            SyntaxBody::Braced { statements } => SyntaxBodyView::Braced {
                statements: statements_view(statements@),
            },
            SyntaxBody::Parenthesized { entries } => SyntaxBodyView::Parenthesized {
                entries: entries_view(entries@),
            },
            SyntaxBody::Template { parameters, statements } => SyntaxBodyView::Template {
                parameters: entries_view(parameters@),
                statements: statements_view(statements@),
            },
            SyntaxBody::Specialize { parameters, target } => SyntaxBodyView::Specialize {
                parameters: entries_view(parameters@),
                target: match target {
                    Some(t) => Some(t@),
                    None => None,
                },
            },
            SyntaxBody::Empty => SyntaxBodyView::Empty,
        }
    }
}

impl SyntaxBodyView {
    pub open spec fn statements(self) -> Seq<StatementView> {
        match self {
            SyntaxBodyView::Braced { statements } => statements,
            SyntaxBodyView::Template { statements, .. } => statements,
            _ => Seq::empty(),
        }
    }
}

impl SyntaxBody {
    /// Returns recovered statements for body shapes that contain statements.
    pub fn statements(&self) -> (r: &[Statement])
        ensures
            statements_view(r@) == self@.statements(),
    {
        match self {
            SyntaxBody::Braced { statements } => statements.as_slice(),
            SyntaxBody::Template { statements, .. } => statements.as_slice(),
            _ => {
                let empty: &[Statement] = &[];
                assert(statements_view(empty@) =~= Seq::<StatementView>::empty());
                empty
            },
        }
    }
}

/// Parsed syntax document.
#[derive(Clone, Debug, PartialEq, Eq)]
pub struct SyntaxDocument {
    /// Detected document kind.
    pub kind: DocumentKind,
    /// Source range covered by the document.
    pub range: TextRange,
    /// Top-level body recovered for this document.
    pub body: SyntaxBody,
}

pub struct SyntaxDocumentView {
    pub kind: DocumentKind,
    pub range: TextRange,
    pub body: SyntaxBodyView,
}

impl View for SyntaxDocument {
    type V = SyntaxDocumentView;

    open spec fn view(&self) -> SyntaxDocumentView {
        SyntaxDocumentView { kind: self.kind, range: self.range, body: self.body@ }
    }
}

/// Parsed document shell.
#[derive(Clone, Debug, PartialEq, Eq)]
pub struct ParsedDocument {
    /// Detected top-level document kind.
    pub kind: Option<DocumentKind>,
    /// Recovered top-level syntax tree.
    pub syntax: Option<SyntaxDocument>,
    /// Full token stream, including trivia.
    pub tokens: Vec<Token>,
    /// Syntax diagnostics.
    pub diagnostics: Vec<Diagnostic>,
}

pub struct ParsedView {
    pub kind: Option<DocumentKind>,
    pub syntax: Option<SyntaxDocumentView>,
    pub tokens: Seq<TokenView>,
    pub diagnostics: Seq<DiagnosticView>,
}

impl View for ParsedDocument {
    type V = ParsedView;

    open spec fn view(&self) -> ParsedView {
        ParsedView {
            kind: self.kind,
            syntax: match self.syntax {
                Some(s) => Some(s@),
                None => None,
            },
            tokens: tokens_view(self.tokens@),
            diagnostics: diagnostics_view(self.diagnostics@),
        }
    }
}

impl ParsedDocument {
    /// Returns true if parsing produced blocking diagnostics.
    pub fn has_errors(&self) -> (r: bool)
        ensures
            r == any_error(self@.diagnostics),
    {
        contains_error(self.diagnostics.as_slice())
    }
}

pub open spec fn expected_body_spec(sid: Seq<char>, t: TokenView, message: Seq<char>) -> DiagnosticView {
    error_view("syntax.expected-body"@, message).with_span(SpanView { source: sid, range: t.range })
}

fn expected_body_diagnostic(source_id: &SourceId, token: &Token, message: &str) -> (r: Diagnostic)
    ensures
        r@ == expected_body_spec(source_id@, token@, message@),
{
    Diagnostic::error("syntax.expected-body", message).with_span(
        TextSpan::new(source_id.duplicate(), token.range),
    )
}

/// Index of the token closing the delimiter at `open`, or the token count.
pub open spec fn close_of(toks: Seq<TokenView>, open: int, o: Seq<char>, c: Seq<char>) -> int {
    match matching_from(toks, open, o, c, 0) {
        Some(k) => k,
        None => toks.len() as int,
    }
}

pub open spec fn braced_body_spec(sid: Seq<char>, toks: Seq<TokenView>, first: int) -> (
    SyntaxBodyView,
    Seq<DiagnosticView>,
) {
    match find_text_from(toks, first + 1, "{"@) {
        None => (
            SyntaxBodyView::Empty,
            seq![expected_body_spec(sid, toks[first], "expected `{ ... }` after the document kind"@)],
        ),
        Some(open) => (
            SyntaxBodyView::Braced {
                statements: split_statements_spec(toks, open + 1, close_of(toks, open, "{"@, "}"@)),
            },
            Seq::empty(),
        ),
    }
}

pub open spec fn parenthesized_body_spec(sid: Seq<char>, toks: Seq<TokenView>, first: int) -> (
    SyntaxBodyView,
    Seq<DiagnosticView>,
) {
    match find_text_from(toks, first + 1, "("@) {
        None => (
            SyntaxBodyView::Empty,
            seq![expected_body_spec(sid, toks[first], "expected `( ... )` after the document kind"@)],
        ),
        Some(open) => (
            SyntaxBodyView::Parenthesized {
                entries: split_entries_spec(toks, open + 1, close_of(toks, open, "("@, ")"@)),
            },
            Seq::empty(),
        ),
    }
}

pub open spec fn template_body_spec(sid: Seq<char>, toks: Seq<TokenView>, first: int) -> (
    SyntaxBodyView,
    Seq<DiagnosticView>,
) {
    match find_text_from(toks, first + 1, "["@) {
        None => (
            SyntaxBodyView::Empty,
            seq![
                expected_body_spec(
                    sid,
                    toks[first],
                    "expected template parameter list after `template`"@,
                ),
            ],
        ),
        Some(open) => {
            let close = close_of(toks, open, "["@, "]"@);
            let parameters = split_entries_spec(toks, open + 1, close);
            match find_text_from(toks, close, "mcdp"@) {
                None => (
                    SyntaxBodyView::Template { parameters, statements: Seq::empty() },
                    seq![
                        expected_body_spec(
                            sid,
                            toks[first],
                            "expected `mcdp { ... }` after template parameters"@,
                        ),
                    ],
                ),
                Some(model) => {
                    let (body, ds) = braced_body_spec(sid, toks, model);
                    (SyntaxBodyView::Template { parameters, statements: body.statements() }, ds)
                },
            }
        },
    }
}

pub open spec fn specialize_body_spec(sid: Seq<char>, toks: Seq<TokenView>, first: int) -> (
    SyntaxBodyView,
    Seq<DiagnosticView>,
) {
    match find_text_from(toks, first + 1, "["@) {
        None => (
            SyntaxBodyView::Empty,
            seq![
                expected_body_spec(
                    sid,
                    toks[first],
                    "expected specialization binding list after `specialize`"@,
                ),
            ],
        ),
        Some(open) => {
            let close = close_of(toks, open, "["@, "]"@);
            (
                SyntaxBodyView::Specialize {
                    parameters: split_entries_spec(toks, open + 1, close),
                    target: segment_entry_spec(toks, close + 1, toks.len() as int),
                },
                Seq::empty(),
            )
        },
    }
}

pub open spec fn body_spec(sid: Seq<char>, toks: Seq<TokenView>, kind: DocumentKind, first: int) -> (
    SyntaxBodyView,
    Seq<DiagnosticView>,
) {
    match kind {
        DocumentKind::Mcdp | DocumentKind::Dp | DocumentKind::Catalog | DocumentKind::Interface
        | DocumentKind::Poset => braced_body_spec(sid, toks, first),
        DocumentKind::Choose | DocumentKind::Intersection => parenthesized_body_spec(sid, toks, first),
        DocumentKind::Template => template_body_spec(sid, toks, first),
        DocumentKind::Specialize => specialize_body_spec(sid, toks, first),
    }
}

/// Byte range from the first significant token to the end of the last one.
pub open spec fn document_range_spec(toks: Seq<TokenView>, first: int) -> TextRange {
    let start = if 0 <= first < toks.len() {
        toks[first].range.start
    } else {
        0
    };
    let end = match last_non_trivia_before(toks, 0, toks.len() as int) {
        Some(l) => toks[l].range.end,
        None => start,
    };
    TextRange { start, end }
}

pub open spec fn unknown_kind_diagnostic(sid: Seq<char>, toks: Seq<TokenView>) -> DiagnosticView {
    let d = error_view(
        "syntax.unknown-document-kind"@,
        "expected a top-level MCDPL document kind"@,
    ).with_help(
        "Start the file with mcdp, dp, catalog, choose, intersection, interface, poset, template, or specialize."@,
    );
    match first_non_trivia_from(toks, 0, toks.len() as int) {
        Some(i) => d.with_span(SpanView { source: sid, range: toks[i].range }),
        None => d,
    }
}

/// What parsing a source text gives: its tokens, its kind, its recovered
/// syntax and its diagnostics (delimiter balance first, then a missing
/// kind or body, then ports that go on after their poset).
pub open spec fn parse_document_spec(sid: Seq<char>, source: Seq<char>) -> ParsedView {
    let toks = lex_spec(source);
    let kind = detect_kind_spec(toks);
    let d1 = balance_diagnostics(sid, toks);
    match kind {
        None => ParsedView {
            kind: None,
            syntax: None,
            tokens: toks,
            diagnostics: d1.push(unknown_kind_diagnostic(sid, toks)),
        },
        Some(k) => {
            let first = match first_non_trivia_from(toks, 0, toks.len() as int) {
                Some(i) => i,
                None => 0,
            };
            let (body, d2) = body_spec(sid, toks, k, first);
            ParsedView {
                kind: Some(k),
                syntax: Some(
                    SyntaxDocumentView { kind: k, range: document_range_spec(toks, first), body },
                ),
                tokens: toks,
                diagnostics: d1 + d2 + port_poset_diagnostics(sid, toks, body.statements(), body.statements().len() as int),
            }
        },
    }
}

proof fn lemma_body_codes(sid: Seq<char>, toks: Seq<TokenView>, kind: DocumentKind, first: int)
    ensures
        forall|i: int|
            0 <= i < body_spec(sid, toks, kind, first).1.len() ==> (#[trigger] body_spec(sid, toks, kind, first).1[i]).code
                == "syntax.expected-body"@,
{
    let ds = body_spec(sid, toks, kind, first).1;
    if kind == DocumentKind::Template {
        match find_text_from(toks, first + 1, "["@) {
            None => {},
            Some(open) => {
                let close = close_of(toks, open, "["@, "]"@);
                match find_text_from(toks, close, "mcdp"@) {
                    None => {},
                    Some(model) => {
                        assert(ds == braced_body_spec(sid, toks, model).1);
                    },
                }
            },
        }
    }
}

proof fn lemma_port_poset_codes(sid: Seq<char>, toks: Seq<TokenView>, stmts: Seq<StatementView>, k: int)
    ensures
        forall|i: int|
            0 <= i < port_poset_diagnostics(sid, toks, stmts, k).len() ==> (#[trigger] port_poset_diagnostics(
                sid,
                toks,
                stmts,
                k,
            )[i]).code == "syntax.trailing-port-poset-token"@,
    decreases k,
{
    if k > 0 {
        lemma_port_poset_codes(sid, toks, stmts, k - 1);
        let p = port_poset_diagnostics(sid, toks, stmts, k - 1);
        let q = port_poset_diagnostics(sid, toks, stmts, k);
        assert forall|i: int| 0 <= i < q.len() implies (#[trigger] q[i]).code == "syntax.trailing-port-poset-token"@ by {
            if i < p.len() {
                assert(q[i] == p[i]);
            }
        }
    }
}

pub open spec fn unknown_kind_code() -> Seq<char> {
    "syntax.unknown-document-kind"@
}

proof fn lemma_codes_differ()
    ensures
        unbalanced_code() != unknown_kind_code(),
        "syntax.expected-body"@ != unknown_kind_code(),
        "syntax.trailing-port-poset-token"@ != unknown_kind_code(),
{
    reveal_strlit("syntax.unknown-document-kind");
    reveal_strlit("syntax.unbalanced-delimiter");
    reveal_strlit("syntax.expected-body");
    reveal_strlit("syntax.trailing-port-poset-token");
    assert(unknown_kind_code().len() == 28);
    assert(unbalanced_code().len() == 27);
    assert("syntax.expected-body"@.len() == 20);
    assert(unknown_kind_code()[7] == 'u' && "syntax.expected-body"@[7] == 'e');
}

/// Parsing keeps the tokens of the lexer; a document has a kind exactly when
/// its first significant token names one, and then a syntax of that kind;
/// and the unknown-kind diagnostic is reported exactly when it has none.
pub proof fn parse_document_reports_unknown_kind(sid: Seq<char>, source: Seq<char>)
    ensures
        ({
            let p = parse_document_spec(sid, source);
            &&& p.tokens == lex_spec(source)
            &&& p.kind == (match first_non_trivia_from(p.tokens, 0, p.tokens.len() as int) {
                Some(f) => document_kind_of(p.tokens[f].text),
                None => None,
            })
            &&& (p.kind is None <==> p.syntax is None)
            &&& (p.kind matches Some(k) ==> p.syntax.unwrap().kind == k)
            &&& (p.kind is None <==> exists|i: int|
                0 <= i < p.diagnostics.len() && (#[trigger] p.diagnostics[i]).code == unknown_kind_code())
        }),
{
    let p = parse_document_spec(sid, source);
    let toks = lex_spec(source);
    let d1 = balance_diagnostics(sid, toks);
    balance_is_well_nesting(sid, toks);
    lemma_codes_differ();
    match detect_kind_spec(toks) {
        None => {
            let n = p.diagnostics.len() - 1;
            assert(p.diagnostics[n] == unknown_kind_diagnostic(sid, toks));
            reveal_strlit("syntax.unknown-document-kind");
        },
        Some(k) => {
            let first = match first_non_trivia_from(toks, 0, toks.len() as int) {
                Some(i) => i,
                None => 0,
            };
            let (body, d2) = body_spec(sid, toks, k, first);
            lemma_body_codes(sid, toks, k, first);
            let d3 = port_poset_diagnostics(sid, toks, body.statements(), body.statements().len() as int);
            lemma_port_poset_codes(sid, toks, body.statements(), body.statements().len() as int);
            assert(p.diagnostics == d1 + d2 + d3);
            assert forall|i: int| 0 <= i < p.diagnostics.len() implies (#[trigger] p.diagnostics[i]).code
                != unknown_kind_code() by {
                if i < d1.len() {
                    assert(p.diagnostics[i] == d1[i]);
                    assert(is_delimiter_error(sid, d1[i]));
                } else if i < d1.len() + d2.len() {
                    assert(p.diagnostics[i] == d2[i - d1.len()]);
                } else {
                    assert(p.diagnostics[i] == d3[i - d1.len() - d2.len()]);
                }
            }
        },
    }
}

/// A statement's text is the source's slice at its range, trimmed.
pub open spec fn statement_is_trimmed_slice(source: Seq<char>, s: StatementView) -> bool {
    exists|a: int, b: int|
        0 <= a <= b <= source.len() && byte_at(source, a) == s.range.start && byte_at(source, b) == s.range.end
            && #[trigger] trim(source.subrange(a, b)) == s.text
}

#[verifier::spinoff_prover]
#[verifier::rlimit(40)]
proof fn lemma_concat_slice(source: Seq<char>, f: int, g: int)
    requires
        0 <= f < g <= lex_spec(source).len(),
    ensures
        0 <= lex_spans(source, 0)[f].1 < lex_spans(source, 0)[g - 1].2 <= source.len(),
        concat_texts(lex_spec(source).subrange(f, g)) == source.subrange(
            lex_spans(source, 0)[f].1,
            lex_spans(source, 0)[g - 1].2,
        ),
    decreases g - f,
{
    let ts = lex_spec(source);
    let sp = lex_spans(source, 0);
    lemma_lex_spans(source, 0);
    assert(ts.len() == sp.len());
    assert(0 <= sp[f].1 < sp[f].2 <= source.len());
    assert(0 <= sp[g - 1].1 < sp[g - 1].2 <= source.len());
    assert(ts[f] == span_token(source, sp[f]));
    let sub = ts.subrange(f, g);
    assert(sub.drop_first() =~= ts.subrange(f + 1, g));
    assert(sub[0] == ts[f]);
    assert(ts[f].text == source.subrange(sp[f].1, sp[f].2));
    assert(concat_texts(sub) == sub[0].text + concat_texts(sub.drop_first()));
    if g == f + 1 {
        assert(ts.subrange(f + 1, g) =~= Seq::<TokenView>::empty());
        assert(concat_texts(ts.subrange(f + 1, g)) == Seq::<char>::empty());
        assert(sub[0].text + Seq::<char>::empty() =~= sub[0].text);
    } else {
        lemma_concat_slice(source, f + 1, g);
        assert(sp[f].2 == sp[f + 1].1);
        assert(source.subrange(sp[f].1, sp[g - 1].2) =~= source.subrange(sp[f].1, sp[f].2) + source.subrange(
            sp[f + 1].1,
            sp[g - 1].2,
        ));
    }
}

proof fn lemma_built_statement(source: Seq<char>, a: int, b: int)
    ensures
        build_statement_spec(lex_spec(source), a, b) matches Some(s) ==> statement_is_trimmed_slice(source, s),
{
    let ts = lex_spec(source);
    if build_statement_spec(ts, a, b) is Some && 0 <= a && b <= ts.len() {
        lemma_last_non_trivia(ts, a, b);
        let f = first_non_trivia_from(ts, a, b).unwrap();
        let l = last_non_trivia_before(ts, a, b).unwrap();
        let s = build_statement_spec(ts, a, b).unwrap();
        lemma_first_non_trivia(ts, a, b);
        lemma_concat_slice(source, f, l + 1);
        lemma_lex_spans(source, 0);
        let sp = lex_spans(source, 0);
        assert(ts[f] == span_token(source, sp[f]));
        assert(ts[l] == span_token(source, sp[l]));
        let x = sp[f].1;
        let y = sp[l].2;
        assert(trim(source.subrange(x, y)) == s.text);
    }
}

proof fn lemma_statements_of_slices(source: Seq<char>, segs: Seq<(int, int)>)
    ensures
        forall|i: int|
            0 <= i < statements_of(lex_spec(source), segs).len() ==> statement_is_trimmed_slice(
                source,
                #[trigger] statements_of(lex_spec(source), segs)[i],
            ),
    decreases segs.len(),
{
    if segs.len() > 0 {
        lemma_statements_of_slices(source, segs.drop_last());
        lemma_built_statement(source, segs.last().0, segs.last().1);
        let p = statements_of(lex_spec(source), segs.drop_last());
        let q = statements_of(lex_spec(source), segs);
        assert forall|i: int| 0 <= i < q.len() implies statement_is_trimmed_slice(source, #[trigger] q[i]) by {
            if i < p.len() {
                assert(q[i] == p[i]);
            }
        }
    }
}

/// The text of every statement of a parsed document is the source's slice
/// at the statement's range, trimmed.
pub proof fn statement_texts_are_trimmed_slices(sid: Seq<char>, source: Seq<char>)
    ensures
        parse_document_spec(sid, source).syntax matches Some(syn) ==> forall|i: int|
            0 <= i < syn.body.statements().len() ==> statement_is_trimmed_slice(
                source,
                #[trigger] syn.body.statements()[i],
            ),
{
    let toks = lex_spec(source);
    match detect_kind_spec(toks) {
        None => {},
        Some(k) => {
            let first = match first_non_trivia_from(toks, 0, toks.len() as int) {
                Some(i) => i,
                None => 0,
            };
            let body = body_spec(sid, toks, k, first).0;
            let braced_at = |at: int|
                match find_text_from(toks, at + 1, "{"@) {
                    Some(open) => segments(toks, open + 1, close_of(toks, open, "{"@, "}"@), true),
                    None => Seq::empty(),
                };
            lemma_statements_of_slices(source, braced_at(first));
            match find_text_from(toks, first + 1, "["@) {
                Some(open) => {
                    let close = close_of(toks, open, "["@, "]"@);
                    match find_text_from(toks, close, "mcdp"@) {
                        Some(model) => {
                            lemma_statements_of_slices(source, braced_at(model));
                        },
                        None => {},
                    }
                },
                None => {},
            }
        },
    }
}

/// A statement's first significant word decides its kind: `provides` a
/// provided port, `requires` a required port, `from` or `import` an import,
/// `implemented-by` an implementation binding and `implements` an interface
/// implementation, whatever follows.
pub proof fn leading_word_decides_statement_kind(sig: Seq<Seq<char>>, text: Seq<char>)
    requires
        sig.len() > 0,
    ensures
        sig[0] == "provides"@ ==> classify_spec(sig, text) == StatementKind::Provides,
        sig[0] == "requires"@ ==> classify_spec(sig, text) == StatementKind::Requires,
        sig[0] == "from"@ || sig[0] == "import"@ ==> classify_spec(sig, text) == StatementKind::Import,
        sig[0] == "implemented-by"@ ==> classify_spec(sig, text) == StatementKind::ImplementedBy,
        sig[0] == "implements"@ ==> classify_spec(sig, text) == StatementKind::Implements,
{
    reveal_strlit("provides");
    reveal_strlit("requires");
    reveal_strlit("from");
    reveal_strlit("import");
    reveal_strlit("implemented-by");
    reveal_strlit("implemented");
    reveal_strlit("implements");
    assert("implements"@.len() == 10 && "implemented-by"@.len() == 14 && "implemented"@.len() == 11);
    assert("implements"@[9] == 's' && "implemented"@[9] == 'e');
    assert("provides"@[0] == 'p' && "requires"@[0] == 'r' && "from"@[0] == 'f' && "import"@[1] == 'm');
}

proof fn lemma_significant_texts_first(ts: Seq<TokenView>, f: int)
    requires
        0 <= f < ts.len(),
        !is_trivia_spec(ts[f].kind),
        forall|k: int| 0 <= k < f ==> is_trivia_spec(#[trigger] ts[k].kind),
    ensures
        significant_texts(ts).len() > 0,
        significant_texts(ts)[0] == ts[f].text,
    decreases ts.len(),
{
    if ts.len() - 1 > f {
        lemma_significant_texts_first(ts.drop_last(), f);
    } else {
        assert(ts.drop_last().len() == f);
        lemma_significant_texts_empty(ts.drop_last());
    }
}

proof fn lemma_significant_texts_empty(ts: Seq<TokenView>)
    requires
        forall|k: int| 0 <= k < ts.len() ==> is_trivia_spec(#[trigger] ts[k].kind),
    ensures
        significant_texts(ts).len() == 0,
    decreases ts.len(),
{
    if ts.len() > 0 {
        lemma_significant_texts_empty(ts.drop_last());
    }
}

/// A statement whose first token is `implements`, `provides`, `requires`,
/// `from` or `import`, or `implemented-by`, has the kind that word
/// introduces.
pub proof fn statement_kind_follows_its_first_token(toks: Seq<TokenView>, a: int, b: int)
    ensures
        build_statement_spec(toks, a, b) matches Some(s) ==> ({
            let first = toks[first_non_trivia_from(toks, a, b).unwrap()].text;
            &&& first == "implements"@ ==> s.kind == StatementKind::Implements
            &&& first == "provides"@ ==> s.kind == StatementKind::Provides
            &&& first == "requires"@ ==> s.kind == StatementKind::Requires
            &&& (first == "from"@ || first == "import"@) ==> s.kind == StatementKind::Import
            &&& first == "implemented-by"@ ==> s.kind == StatementKind::ImplementedBy
        }),
{
    if build_statement_spec(toks, a, b) is Some && 0 <= a && b <= toks.len() {
        lemma_last_non_trivia(toks, a, b);
        lemma_first_non_trivia(toks, a, b);
        let f = first_non_trivia_from(toks, a, b).unwrap();
        let l = last_non_trivia_before(toks, a, b).unwrap();
        let s = build_statement_spec(toks, a, b).unwrap();
        let sub = toks.subrange(f, l + 1);
        lemma_significant_texts_first(sub, 0);
        assert(sub[0] == toks[f]);
        leading_word_decides_statement_kind(significant_texts(sub), s.text);
    }
}

fn parse_braced_body(
    source_id: &SourceId,
    tokens: &[Token],
    first_index: usize,
    diagnostics: &mut Vec<Diagnostic>,
) -> (r: SyntaxBody)
    requires
        first_index < tokens@.len(),
    ensures
        r@ == braced_body_spec(source_id@, tokens_view(tokens@), first_index as int).0,
        diagnostics_view(final(diagnostics)@) == diagnostics_view(old(diagnostics)@)
            + braced_body_spec(source_id@, tokens_view(tokens@), first_index as int).1,
{
    let ghost tv = tokens_view(tokens@);
    let ghost before = diagnostics_view(diagnostics@);
    let n = tokens.len();
    assert(n == tokens@.len());
    proof {
        lemma_find_text_from(tv, first_index + 1, "{"@);
    }
    let open_index = match find_next_text(tokens, first_index + 1, "{") {
        Some(i) => i,
        None => {
            let d = expected_body_diagnostic(
                source_id,
                &tokens[first_index],
                "expected `{ ... }` after the document kind",
            );
            diagnostics.push(d);
            assert(diagnostics_view(diagnostics@) =~= before + seq![d@]);
            return SyntaxBody::Empty;
        },
    };
    proof {
        let fk = find_text_from(tv, first_index + 1, "{"@);
        assert(fk.unwrap() as usize == open_index);
        assert(tv[open_index as int].text == "{"@);
        lemma_matching_from(tv, open_index as int, "{"@, "}"@, 0);
        reveal_strlit("{");
        reveal_strlit("}");
        assert("{"@[0] != "}"@[0]);
        lemma_matching_after(tv, open_index as int, "{"@, "}"@);
    }
    let close_index = match find_matching_forward(tokens, open_index, "{", "}") {
        Some(index) => index,
        None => tokens.len(),
    };
    assert(diagnostics_view(diagnostics@) =~= before + Seq::<DiagnosticView>::empty());
    SyntaxBody::Braced { statements: split_statements(tokens, open_index + 1, close_index) }
}

fn parse_parenthesized_body(
    source_id: &SourceId,
    tokens: &[Token],
    first_index: usize,
    diagnostics: &mut Vec<Diagnostic>,
) -> (r: SyntaxBody)
    requires
        first_index < tokens@.len(),
    ensures
        r@ == parenthesized_body_spec(source_id@, tokens_view(tokens@), first_index as int).0,
        diagnostics_view(final(diagnostics)@) == diagnostics_view(old(diagnostics)@)
            + parenthesized_body_spec(source_id@, tokens_view(tokens@), first_index as int).1,
{
    let ghost tv = tokens_view(tokens@);
    let ghost before = diagnostics_view(diagnostics@);
    let n = tokens.len();
    assert(n == tokens@.len());
    proof {
        lemma_find_text_from(tv, first_index + 1, "("@);
    }
    let open_index = match find_next_text(tokens, first_index + 1, "(") {
        Some(i) => i,
        None => {
            let d = expected_body_diagnostic(
                source_id,
                &tokens[first_index],
                "expected `( ... )` after the document kind",
            );
            diagnostics.push(d);
            assert(diagnostics_view(diagnostics@) =~= before + seq![d@]);
            return SyntaxBody::Empty;
        },
    };
    proof {
        let fk = find_text_from(tv, first_index + 1, "("@);
        assert(fk.unwrap() as usize == open_index);
        assert(tv[open_index as int].text == "("@);
        lemma_matching_from(tv, open_index as int, "("@, ")"@, 0);
        reveal_strlit("(");
        reveal_strlit(")");
        assert("("@[0] != ")"@[0]);
        lemma_matching_after(tv, open_index as int, "("@, ")"@);
    }
    let close_index = match find_matching_forward(tokens, open_index, "(", ")") {
        Some(index) => index,
        None => tokens.len(),
    };
    assert(diagnostics_view(diagnostics@) =~= before + Seq::<DiagnosticView>::empty());
    SyntaxBody::Parenthesized { entries: split_entries(tokens, open_index + 1, close_index) }
}

fn parse_template_body(
    source_id: &SourceId,
    tokens: &[Token],
    first_index: usize,
    diagnostics: &mut Vec<Diagnostic>,
) -> (r: SyntaxBody)
    requires
        first_index < tokens@.len(),
    ensures
        r@ == template_body_spec(source_id@, tokens_view(tokens@), first_index as int).0,
        diagnostics_view(final(diagnostics)@) == diagnostics_view(old(diagnostics)@)
            + template_body_spec(source_id@, tokens_view(tokens@), first_index as int).1,
{
    let ghost tv = tokens_view(tokens@);
    let ghost before = diagnostics_view(diagnostics@);
    let n = tokens.len();
    assert(n == tokens@.len());
    proof {
        lemma_find_text_from(tv, first_index + 1, "["@);
    }
    let open_index = match find_next_text(tokens, first_index + 1, "[") {
        Some(i) => i,
        None => {
            let d = expected_body_diagnostic(
                source_id,
                &tokens[first_index],
                "expected template parameter list after `template`",
            );
            diagnostics.push(d);
            assert(diagnostics_view(diagnostics@) =~= before + seq![d@]);
            return SyntaxBody::Empty;
        },
    };
    proof {
        let fk = find_text_from(tv, first_index + 1, "["@);
        assert(fk.unwrap() as usize == open_index);
        assert(tv[open_index as int].text == "["@);
        lemma_matching_from(tv, open_index as int, "["@, "]"@, 0);
        reveal_strlit("[");
        reveal_strlit("]");
        assert("["@[0] != "]"@[0]);
        lemma_matching_after(tv, open_index as int, "["@, "]"@);
    }
    let close_index = match find_matching_forward(tokens, open_index, "[", "]") {
        Some(index) => index,
        None => tokens.len(),
    };
    let parameters = split_entries(tokens, open_index + 1, close_index);
    proof {
        lemma_find_text_from(tv, close_index as int, "mcdp"@);
    }
    let model_index = match find_next_text(tokens, close_index, "mcdp") {
        Some(i) => i,
        None => {
            let d = expected_body_diagnostic(
                source_id,
                &tokens[first_index],
                "expected `mcdp { ... }` after template parameters",
            );
            diagnostics.push(d);
            assert(diagnostics_view(diagnostics@) =~= before + seq![d@]);
            let empty: Vec<Statement> = Vec::new();
            assert(statements_view(empty@) =~= Seq::<StatementView>::empty());
            let r = SyntaxBody::Template { parameters, statements: empty };
            return r;
        },
    };
    match parse_braced_body(source_id, tokens, model_index, diagnostics) {
        SyntaxBody::Braced { statements } => SyntaxBody::Template { parameters, statements },
        _ => {
            let empty: Vec<Statement> = Vec::new();
            assert(statements_view(empty@) =~= Seq::<StatementView>::empty());
            SyntaxBody::Template { parameters, statements: empty }
        },
    }
}

fn parse_specialize_body(
    source_id: &SourceId,
    tokens: &[Token],
    first_index: usize,
    diagnostics: &mut Vec<Diagnostic>,
) -> (r: SyntaxBody)
    requires
        first_index < tokens@.len(),
    ensures
        r@ == specialize_body_spec(source_id@, tokens_view(tokens@), first_index as int).0,
        diagnostics_view(final(diagnostics)@) == diagnostics_view(old(diagnostics)@)
            + specialize_body_spec(source_id@, tokens_view(tokens@), first_index as int).1,
{
    let ghost tv = tokens_view(tokens@);
    let ghost before = diagnostics_view(diagnostics@);
    let n = tokens.len();
    assert(n == tokens@.len());
    proof {
        lemma_find_text_from(tv, first_index + 1, "["@);
    }
    let open_index = match find_next_text(tokens, first_index + 1, "[") {
        Some(i) => i,
        None => {
            let d = expected_body_diagnostic(
                source_id,
                &tokens[first_index],
                "expected specialization binding list after `specialize`",
            );
            diagnostics.push(d);
            assert(diagnostics_view(diagnostics@) =~= before + seq![d@]);
            return SyntaxBody::Empty;
        },
    };
    proof {
        let fk = find_text_from(tv, first_index + 1, "["@);
        assert(fk.unwrap() as usize == open_index);
        assert(tv[open_index as int].text == "["@);
        lemma_matching_from(tv, open_index as int, "["@, "]"@, 0);
        reveal_strlit("[");
        reveal_strlit("]");
        assert("["@[0] != "]"@[0]);
        lemma_matching_after(tv, open_index as int, "["@, "]"@);
    }
    let close_index = match find_matching_forward(tokens, open_index, "[", "]") {
        Some(index) => index,
        None => tokens.len(),
    };
    let target = if close_index < tokens.len() {
        segment_entry(tokens, close_index + 1, tokens.len())
    } else {
        assert(segment_entry_spec(tv, close_index + 1, tv.len() as int) is None);
        None
    };
    assert(diagnostics_view(diagnostics@) =~= before + Seq::<DiagnosticView>::empty());
    SyntaxBody::Specialize { parameters: split_entries(tokens, open_index + 1, close_index), target }
}

fn document_range(tokens: &[Token], first_index: usize) -> (r: TextRange)
    ensures
        r == document_range_spec(tokens_view(tokens@), first_index as int),
{
    let start = if first_index < tokens.len() {
        tokens[first_index].range.start
    } else {
        0
    };
    proof {
        lemma_last_non_trivia(tokens_view(tokens@), 0, tokens@.len() as int);
    }
    let end = match last_non_trivia_in_range(tokens, 0, tokens.len()) {
        Some(l) => tokens[l].range.end,
        None => start,
    };
    TextRange { start, end }
}

// ---------------------------------------------------------------------------
// Port declarations
// ---------------------------------------------------------------------------

pub open spec fn is_port_statement(k: StatementKind) -> bool {
    k == StatementKind::Provides || k == StatementKind::Requires
}

/// Where a port declaration goes on after its poset: the first significant
/// token after the bracket that closes its first `[`.
pub open spec fn trailing_poset_token(ts: Seq<TokenView>) -> Option<int> {
    match find_text_from(ts, 0, "["@) {
        Some(o) => match matching_from(ts, o, "["@, "]"@, 0) {
            Some(c) => if c + 1 < ts.len() {
                Some(c + 1)
            } else {
                None
            },
            None => None,
        },
        None => None,
    }
}

pub open spec fn trailing_poset_spec(sid: Seq<char>, t: TokenView) -> DiagnosticView {
    error_view("syntax.trailing-port-poset-token"@, "unexpected token after the port's poset"@).with_help(
        "A port declaration ends with its poset in brackets, as in `provides capacity [J]`."@,
    ).with_span(SpanView { source: sid, range: t.range })
}

/// One diagnostic for each of the first `k` statements that declares a port
/// and goes on after its poset.
pub open spec fn port_poset_diagnostics(
    sid: Seq<char>,
    toks: Seq<TokenView>,
    stmts: Seq<StatementView>,
    k: int,
) -> Seq<DiagnosticView>
    decreases k,
{
    if k <= 0 {
        Seq::empty()
    } else {
        let p = port_poset_diagnostics(sid, toks, stmts, k - 1);
        let s = stmts[k - 1];
        let ts = crate::symbols::tokens_within(toks, s.range);
        if is_port_statement(s.kind) {
            match trailing_poset_token(ts) {
                Some(i) => p.push(trailing_poset_spec(sid, ts[i])),
                None => p,
            }
        } else {
            p
        }
    }
}

fn trailing_poset_index(ts: &[Token]) -> (r: Option<usize>)
    ensures
        r is Some <==> trailing_poset_token(tokens_view(ts@)) is Some,
        r is Some ==> r.unwrap() as int == trailing_poset_token(tokens_view(ts@)).unwrap() && r.unwrap() < ts@.len(),
{
    let ghost tv = tokens_view(ts@);
    proof {
        lemma_find_text_from(tv, 0, "["@);
    }
    match find_next_text(ts, 0, "[") {
        Some(o) => {
            proof {
                lemma_matching_from(tv, o as int, "["@, "]"@, 0);
            }
            match find_matching_forward(ts, o, "[", "]") {
                Some(c) => {
                    let n = ts.len();
                    assert(c < n);
                    if c + 1 < n {
                        Some(c + 1)
                    } else {
                        None
                    }
                },
                None => None,
            }
        },
        None => None,
    }
}

fn check_port_posets(
    source_id: &SourceId,
    tokens: &[Token],
    statements: &[Statement],
    diagnostics: &mut Vec<Diagnostic>,
)
    ensures
        diagnostics_view(final(diagnostics)@) == diagnostics_view(old(diagnostics)@) + port_poset_diagnostics(
            source_id@,
            tokens_view(tokens@),
            statements_view(statements@),
            statements@.len() as int,
        ),
{
    let ghost tv = tokens_view(tokens@);
    let ghost sv = statements_view(statements@);
    let ghost before = diagnostics_view(diagnostics@);
    let mut k: usize = 0;
    assert(before =~= before + Seq::<DiagnosticView>::empty());
    while k < statements.len()
        invariant
            k <= statements@.len(),
            tv == tokens_view(tokens@),
            sv == statements_view(statements@),
            diagnostics_view(diagnostics@) == before + port_poset_diagnostics(source_id@, tv, sv, k as int),
        decreases statements@.len() - k,
    {
        let s = &statements[k];
        assert(sv[k as int] == s@);
        let is_port = match s.kind {
            StatementKind::Provides | StatementKind::Requires => true,
            _ => false,
        };
        if is_port {
            let ts = crate::symbols::statement_tokens(tokens, s.range);
            match trailing_poset_index(ts.as_slice()) {
                Some(i) => {
                    let d = Diagnostic::error(
                        "syntax.trailing-port-poset-token",
                        "unexpected token after the port's poset",
                    ).with_help(
                        "A port declaration ends with its poset in brackets, as in `provides capacity [J]`.",
                    ).with_span(TextSpan::new(source_id.duplicate(), ts[i].range));
                    let ghost prev = diagnostics_view(diagnostics@);
                    diagnostics.push(d);
                    assert(diagnostics_view(diagnostics@) =~= prev.push(d@));
                    assert(tokens_view(ts@)[i as int] == ts@[i as int]@);
                },
                None => {},
            }
        }
        k = k + 1;
    }
}

fn parse_syntax_document(
    source_id: &SourceId,
    tokens: &[Token],
    kind: DocumentKind,
    diagnostics: &mut Vec<Diagnostic>,
) -> (r: SyntaxDocument)
    requires
        first_non_trivia_from(tokens_view(tokens@), 0, tokens@.len() as int) is Some,
    ensures
        ({
            let tv = tokens_view(tokens@);
            let first = first_non_trivia_from(tv, 0, tv.len() as int).unwrap();
            &&& r@ == (SyntaxDocumentView {
                kind,
                range: document_range_spec(tv, first),
                body: body_spec(source_id@, tv, kind, first).0,
            })
            &&& diagnostics_view(final(diagnostics)@) == diagnostics_view(old(diagnostics)@)
                + body_spec(source_id@, tv, kind, first).1
        }),
{
    proof {
        lemma_first_non_trivia(tokens_view(tokens@), 0, tokens@.len() as int);
    }
    let first_index = match first_non_trivia_index(tokens) {
        Some(i) => i,
        None => 0,
    };
    proof {
        let tv = tokens_view(tokens@);
        let f = first_non_trivia_from(tv, 0, tv.len() as int);
        assert(f.unwrap() as usize == first_index);
        assert(f.unwrap() == first_index as int);
    }
    let range = document_range(tokens, first_index);
    let body = match kind {
        DocumentKind::Mcdp | DocumentKind::Dp | DocumentKind::Catalog | DocumentKind::Interface
        | DocumentKind::Poset => parse_braced_body(source_id, tokens, first_index, diagnostics),
        DocumentKind::Choose | DocumentKind::Intersection => {
            parse_parenthesized_body(source_id, tokens, first_index, diagnostics)
        },
        DocumentKind::Template => parse_template_body(source_id, tokens, first_index, diagnostics),
        DocumentKind::Specialize => parse_specialize_body(
            source_id,
            tokens,
            first_index,
            diagnostics,
        ),
    };
    SyntaxDocument { kind, range, body }
}

/// Parses a source document enough to classify and diagnose it.
pub fn parse_document(source_id: SourceId, source: &str) -> (r: ParsedDocument)
    ensures
        r@ == parse_document_spec(source_id@, source@),
{
    let tokens = lex(source);
    let kind = detect_document_kind(tokens.as_slice());
    let mut diagnostics: Vec<Diagnostic> = Vec::new();
    assert(diagnostics_view(diagnostics@) =~= Seq::<DiagnosticView>::empty());
    check_balanced_delimiters(&source_id, tokens.as_slice(), &mut diagnostics);
    let ghost tv = tokens_view(tokens@);
    proof {
        assert(diagnostics_view(diagnostics@) =~= balance_diagnostics(source_id@, tv));
        lemma_first_non_trivia(tv, 0, tv.len() as int);
    }
    match kind {
        None => {
            let fi = first_non_trivia_index(tokens.as_slice());
            let span = match fi {
                Some(i) => Some(TextSpan::new(source_id.duplicate(), tokens[i].range)),
                None => None,
            };
            proof {
                let f = first_non_trivia_from(tv, 0, tv.len() as int);
                if f is Some {
                    assert(f.unwrap() as usize == fi.unwrap());
                    assert(f.unwrap() == fi.unwrap() as int);
                }
            }
            let mut diagnostic = Diagnostic::error(
                "syntax.unknown-document-kind",
                "expected a top-level MCDPL document kind",
            ).with_help(
                "Start the file with mcdp, dp, catalog, choose, intersection, interface, poset, template, or specialize.",
            );
            match span {
                Some(s) => {
                    diagnostic = diagnostic.with_span(s);
                },
                None => {},
            }
            let ghost before = diagnostics_view(diagnostics@);
            diagnostics.push(diagnostic);
            assert(diagnostics_view(diagnostics@) =~= before.push(diagnostic@));
            ParsedDocument { kind: None, syntax: None, tokens, diagnostics }
        },
        Some(k) => {
            proof {
                let f = first_non_trivia_from(tv, 0, tv.len() as int);
                assert(f is Some);
                let first = match f {
                    Some(i) => i,
                    None => 0,
                };
                assert(first == f.unwrap());
            }
            let syntax = parse_syntax_document(&source_id, tokens.as_slice(), k, &mut diagnostics);
            check_port_posets(&source_id, tokens.as_slice(), syntax.body.statements(), &mut diagnostics);
            ParsedDocument { kind: Some(k), syntax: Some(syntax), tokens, diagnostics }
        },
    }
}

} // verus!
