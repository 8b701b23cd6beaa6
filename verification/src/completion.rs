//! Completion in the editor: which kind of completion a cursor position
//! asks for, the fixed snippet lists, and the text that port items insert.

use vstd::prelude::*;
use crate::graph::PortDirection;
use crate::syntax::{
    dec, is_trivia, is_trivia_spec, lex, lex_spec, text_is, tokens_view, Token, TokenKind,
    TokenView,
};
use crate::text::{
    chars_of, find, find_lit, is_whitespace, join3, last_index_of, last_index_of_exec, occurs_at,
    starts_with_lit, str_eq, string_from_chars, string_from_range, subrange_vec,
    unicode_whitespace, lemma_last_index_of, lemma_find_from,
};

verus! {

// ---------------------------------------------------------------------------
// Tokens
// ---------------------------------------------------------------------------

/// The tokens that are not whitespace, line breaks or comments.
pub open spec fn significant(ts: Seq<TokenView>) -> Seq<TokenView>
    decreases ts.len(),
{
    if ts.len() == 0 {
        Seq::empty()
    } else if is_trivia_spec(ts.last().kind) {
        significant(ts.drop_last())
    } else {
        significant(ts.drop_last()).push(ts.last())
    }
}

pub open spec fn significant_of(text: Seq<char>) -> Seq<TokenView> {
    significant(lex_spec(text))
}

/// The non-trivia tokens of a text.
pub fn significant_tokens(source: &str) -> (r: Vec<Token>)
    ensures
        tokens_view(r@) == significant_of(source@),
{
    let tokens = lex(source);
    let ghost tv = tokens_view(tokens@);
    let mut out: Vec<Token> = Vec::new();
    let mut i: usize = 0;
    while i < tokens.len()
        invariant
            i <= tokens@.len(),
            tv == tokens_view(tokens@),
            tv == lex_spec(source@),
            tokens_view(out@) == significant(tv.take(i as int)),
        decreases tokens@.len() - i,
    {
        let t = &tokens[i];
        proof {
            assert(tv.take(i + 1).drop_last() =~= tv.take(i as int));
            assert(tv.take(i + 1).last() == t@);
        }
        if !is_trivia(t.kind) {
            let copy = Token { kind: t.kind, text: t.text.clone(), range: t.range };
            assert(tokens_view(out@.push(copy)) =~= tokens_view(out@).push(copy@));
            out.push(copy);
        }
        i = i + 1;
    }
    assert(tv.take(tokens@.len() as int) =~= tv);
    out
}

pub open spec fn is_symbol_name_spec(t: TokenView) -> bool {
    t.kind == TokenKind::Ident || t.kind == TokenKind::Keyword
}

fn is_symbol_name(token: &Token) -> (r: bool)
    ensures
        r == is_symbol_name_spec(token@),
{
    token.kind == TokenKind::Ident || token.kind == TokenKind::Keyword
}

/// The direction that `provided` or `required` names.
pub open spec fn reference_direction_spec(text: Seq<char>) -> Option<PortDirection> {
    if text == "provided"@ {
        Some(PortDirection::Provides)
    } else if text == "required"@ {
        Some(PortDirection::Requires)
    } else {
        None
    }
}

pub fn reference_direction(text: &str) -> (r: Option<PortDirection>)
    ensures
        r == reference_direction_spec(text@),
{
    if str_eq(text, "provided") {
        Some(PortDirection::Provides)
    } else if str_eq(text, "required") {
        Some(PortDirection::Requires)
    } else {
        None
    }
}

pub fn is_reference_direction(text: &str) -> (r: bool)
    ensures
        r == reference_direction_spec(text@) is Some,
{
    reference_direction(text).is_some()
}

pub open spec fn is_relation_operator_spec(text: Seq<char>) -> bool {
    text == "<="@ || text == ">="@ || text == "≤"@ || text == "≥"@ || text == "="@ || text == "=="@
}

pub fn is_relation_operator(text: &str) -> (r: bool)
    ensures
        r == is_relation_operator_spec(text@),
{
    str_eq(text, "<=") || str_eq(text, ">=") || str_eq(text, "≤") || str_eq(text, "≥") || str_eq(
        text,
        "=",
    ) || str_eq(text, "==")
}

// ---------------------------------------------------------------------------
// Contexts
// ---------------------------------------------------------------------------

/// The text after the last line break (all of it when there is none).
pub open spec fn line_prefix(s: Seq<char>) -> Seq<char> {
    match last_index_of(s, '\n') {
        Some(k) => s.subrange(k + 1, s.len() as int),
        None => s,
    }
}

fn line_prefix_exec(s: &[char]) -> (r: Vec<char>)
    ensures
        r@ == line_prefix(s@),
{
    let n = s.len();
    match last_index_of_exec(s, '\n') {
        Some(k) => {
            proof {
                lemma_last_index_of(s@, '\n');
            }
            subrange_vec(s, k + 1, s.len())
        },
        None => subrange_vec(s, 0, s.len()),
    }
}

/// At the start of a document: nothing but trivia before the cursor, or a
/// single word on the first line.
pub open spec fn top_level_spec(prefix: Seq<char>) -> bool {
    let sig = significant_of(prefix);
    sig.len() == 0 || (sig.len() == 1 && is_symbol_name_spec(sig[0]) && last_index_of(prefix, '\n')
        is None)
}

pub fn is_top_level_context(prefix: &str) -> (r: bool)
    ensures
        r == top_level_spec(prefix@),
{
    let sig = significant_tokens(prefix);
    if sig.len() == 0 {
        return true;
    }
    assert(tokens_view(sig@)[0] == sig@[0]@);
    let chars = chars_of(prefix);
    sig.len() == 1 && is_symbol_name(&sig[0]) && last_index_of_exec(chars.as_slice(), '\n').is_none()
}

/// Open braces minus closing ones, never below zero, strings and comments aside.
pub open spec fn brace_depth(ts: Seq<TokenView>) -> nat
    decreases ts.len(),
{
    if ts.len() == 0 {
        0
    } else {
        let d = brace_depth(ts.drop_last());
        let t = ts.last();
        if t.kind == TokenKind::Comment || t.kind == TokenKind::String {
            d
        } else if t.text == "{"@ {
            d + 1
        } else if t.text == "}"@ {
            dec(d)
        } else {
            d
        }
    }
}

/// Inside a braced document body.
pub open spec fn braced_body_spec(prefix: Seq<char>) -> bool {
    brace_depth(lex_spec(prefix)) > 0
}

pub fn is_braced_body_context(prefix: &str) -> (r: bool)
    ensures
        r == braced_body_spec(prefix@),
{
    let tokens = lex(prefix);
    let ghost tv = tokens_view(tokens@);
    let mut depth: usize = 0;
    let mut i: usize = 0;
    while i < tokens.len()
        invariant
            i <= tokens@.len(),
            tv == tokens_view(tokens@),
            tv == lex_spec(prefix@),
            depth == brace_depth(tv.take(i as int)),
            depth <= i,
        decreases tokens@.len() - i,
    {
        let t = &tokens[i];
        proof {
            assert(tv.take(i + 1).drop_last() =~= tv.take(i as int));
            assert(tv.take(i + 1).last() == t@);
        }
        if !(t.kind == TokenKind::Comment || t.kind == TokenKind::String) {
            if text_is(t, "{") {
                depth = depth + 1;
            } else if text_is(t, "}") {
                depth = if depth > 0 { depth - 1 } else { 0 };
            }
        }
        i = i + 1;
    }
    assert(tv.take(tokens@.len() as int) =~= tv);
    depth > 0
}

/// Characters that end the word before a model reference.
pub open spec fn is_reference_separator(c: char) -> bool {
    unicode_whitespace(c) || c == ',' || c == '(' || c == '[' || c == ':' || c == '='
}

/// Index of the last separator in `s[..k]`.
pub open spec fn last_separator(s: Seq<char>, k: int) -> Option<int>
    decreases k,
{
    if k <= 0 {
        None
    } else if is_reference_separator(s[k - 1]) {
        Some(k - 1)
    } else {
        last_separator(s, k - 1)
    }
}

/// The cursor is in a word that starts with a backtick.
pub open spec fn model_reference_spec(prefix: Seq<char>) -> bool {
    let segment = match last_separator(prefix, prefix.len() as int) {
        Some(k) => prefix.subrange(k + 1, prefix.len() as int),
        None => prefix,
    };
    segment.len() > 0 && segment[0] == '`'
}

pub fn is_model_reference_context(prefix: &str) -> (r: bool)
    ensures
        r == model_reference_spec(prefix@),
{
    let chars = chars_of(prefix);
    let mut k = chars.len();
    while k > 0 && !(is_whitespace(chars[k - 1]) || chars[k - 1] == ',' || chars[k - 1] == '('
        || chars[k - 1] == '[' || chars[k - 1] == ':' || chars[k - 1] == '=')
        invariant
            k <= chars@.len(),
            last_separator(chars@, chars@.len() as int) == last_separator(chars@, k as int),
        decreases k,
    {
        k = k - 1;
    }
    proof {
        if k > 0 {
            assert(last_separator(chars@, k as int) == Some(k - 1));
        } else {
            assert(last_separator(chars@, 0) is None);
        }
    }
    k < chars.len() && chars[k] == '`'
}

/// Inside a braced body, on a line that already holds a relation operator or
/// that ends with an operator or an opening of arguments.
pub open spec fn instance_scoped_expression_spec(prefix: Seq<char>) -> bool {
    let tokens = significant_of(line_prefix(prefix));
    braced_body_spec(prefix) && ((exists|i: int|
        0 <= i < tokens.len() && is_relation_operator_spec(#[trigger] tokens[i].text)) || (
    tokens.len() > 0 && {
        let t = tokens.last().text;
        t == "+"@ || t == "-"@ || t == "*"@ || t == "/"@ || t == "("@ || t == ","@ || t == "<="@
            || t == ">="@ || t == "≤"@ || t == "≥"@ || t == "="@ || t == "=="@
    }))
}

pub fn is_instance_scoped_expression_context(prefix: &str) -> (r: bool)
    ensures
        r == instance_scoped_expression_spec(prefix@),
{
    if !is_braced_body_context(prefix) {
        return false;
    }
    let chars = chars_of(prefix);
    let line = line_prefix_exec(chars.as_slice());
    let line_text = string_from_chars(line.as_slice());
    let tokens = significant_tokens(line_text.as_str());
    let ghost tv = tokens_view(tokens@);
    assert(tv == significant_of(line_prefix(prefix@)));
    let mut i: usize = 0;
    while i < tokens.len()
        invariant
            i <= tokens@.len(),
            tv == tokens_view(tokens@),
            tv == significant_of(line_prefix(prefix@)),
            braced_body_spec(prefix@),
            forall|j: int| 0 <= j < i ==> !is_relation_operator_spec(#[trigger] tv[j].text),
        decreases tokens@.len() - i,
    {
        assert(tv[i as int] == tokens@[i as int]@);
        if is_relation_operator(tokens[i].text.as_str()) {
            assert(is_relation_operator_spec(tv[i as int].text));
            return true;
        }
        i = i + 1;
    }
    if tokens.len() == 0 {
        return false;
    }
    let last = tokens[tokens.len() - 1].text.as_str();
    assert(tv.last() == tokens@[tokens@.len() - 1]@);
    str_eq(last, "+") || str_eq(last, "-") || str_eq(last, "*") || str_eq(last, "/") || str_eq(
        last,
        "(",
    ) || str_eq(last, ",") || str_eq(last, "<=") || str_eq(last, ">=") || str_eq(last, "≤")
        || str_eq(last, "≥") || str_eq(last, "=") || str_eq(last, "==")
}

/// After `name provided by` or `name required by`, or on the instance name
/// that follows.
pub open spec fn instance_name_spec(prefix: Seq<char>) -> bool {
    let t = significant_of(prefix);
    let n = t.len();
    (n >= 3 && is_symbol_name_spec(t[n - 3]) && reference_direction_spec(t[n - 2].text) is Some
        && t[n - 1].text == "by"@) || (n >= 4 && is_symbol_name_spec(t[n - 4])
        && reference_direction_spec(t[n - 3].text) is Some && t[n - 2].text == "by"@
        && is_symbol_name_spec(t[n - 1]))
}

pub fn is_instance_name_context(prefix: &str) -> (r: bool)
    ensures
        r == instance_name_spec(prefix@),
{
    let tokens = significant_tokens(prefix);
    let ghost tv = tokens_view(tokens@);
    let n = tokens.len();
    if n >= 3 {
        assert(tv[n - 3] == tokens@[n - 3]@);
        assert(tv[n - 2] == tokens@[n - 2]@);
        assert(tv[n - 1] == tokens@[n - 1]@);
        if is_symbol_name(&tokens[n - 3]) && is_reference_direction(tokens[n - 2].text.as_str())
            && text_is(&tokens[n - 1], "by") {
            return true;
        }
    }
    if n >= 4 {
        assert(tv[n - 4] == tokens@[n - 4]@);
        assert(tv[n - 3] == tokens@[n - 3]@);
        assert(tv[n - 2] == tokens@[n - 2]@);
        assert(tv[n - 1] == tokens@[n - 1]@);
        return is_symbol_name(&tokens[n - 4]) && is_reference_direction(tokens[n - 3].text.as_str())
            && text_is(&tokens[n - 2], "by") && is_symbol_name(&tokens[n - 1]);
    }
    false
}

/// What the text after the cursor says of an instance-scoped port: its
/// direction and the instance name.
pub open spec fn instance_port_spec(suffix: Seq<char>) -> Option<(PortDirection, Seq<char>)> {
    let t = significant_of(suffix);
    if t.len() >= 3 && reference_direction_spec(t[0].text) is Some && t[1].text == "by"@
        && is_symbol_name_spec(t[2]) {
        Some((reference_direction_spec(t[0].text).unwrap(), t[2].text))
    } else {
        None
    }
}

/// How a port item is inserted.
#[derive(Clone, Copy, Debug, PartialEq, Eq, Structural)]
pub enum InstancePortInsertMode {
    /// Only the port name (the rest of the reference follows the cursor).
    PortOnly,
    /// The whole `port provided by instance` expression.
    FullExpression,
}

/// The cursor stands before `provided by instance` or `required by instance`.
#[derive(Debug, PartialEq, Eq)]
pub struct InstancePortContext {
    pub direction: PortDirection,
    pub instance_name: String,
    pub insert_mode: InstancePortInsertMode,
}

pub fn instance_port_context(suffix: &str) -> (r: Option<InstancePortContext>)
    ensures
        match r {
            Some(c) => instance_port_spec(suffix@) == Some((c.direction, c.instance_name@))
                && c.insert_mode == InstancePortInsertMode::PortOnly,
            None => instance_port_spec(suffix@) is None,
        },
{
    let tokens = significant_tokens(suffix);
    let ghost tv = tokens_view(tokens@);
    if tokens.len() < 3 {
        return None;
    }
    assert(tv[0] == tokens@[0]@);
    assert(tv[1] == tokens@[1]@);
    assert(tv[2] == tokens@[2]@);
    let direction = match reference_direction(tokens[0].text.as_str()) {
        Some(d) => d,
        None => return None,
    };
    if !text_is(&tokens[1], "by") {
        return None;
    }
    if !is_symbol_name(&tokens[2]) {
        return None;
    }
    Some(
        InstancePortContext {
            direction,
            instance_name: tokens[2].text.clone(),
            insert_mode: InstancePortInsertMode::PortOnly,
        },
    )
}

/// Index of the last occurrence of `p` in `s[..k + p.len()]`, searching down from `k`.
pub open spec fn last_occurrence(s: Seq<char>, p: Seq<char>, k: int) -> Option<int>
    decreases k + 1,
{
    if k < 0 {
        None
    } else if occurs_at(s, k, p) {
        Some(k)
    } else {
        last_occurrence(s, p, k - 1)
    }
}

/// Index of the first quote (`"` or `'`) in `s`.
pub open spec fn first_quote(s: Seq<char>, i: int) -> Option<int>
    decreases s.len() - i,
{
    if i < 0 || i >= s.len() {
        None
    } else if s[i] == '"' || s[i] == '\'' {
        Some(i)
    } else {
        first_quote(s, i + 1)
    }
}

/// Inside the still open quoted path of a `resource(...)` on the cursor's line.
pub open spec fn resource_string_spec(prefix: Seq<char>) -> bool {
    let line = line_prefix(prefix);
    match last_occurrence(line, "resource("@, line.len() - "resource("@.len()) {
        None => false,
        Some(start) => {
            let after = line.subrange(start + "resource("@.len(), line.len() as int);
            match first_quote(after, 0) {
                None => false,
                Some(q) => find(after.subrange(q + 1, after.len() as int), seq![after[q]]) is None,
            }
        },
    }
}

proof fn lemma_first_quote(s: Seq<char>, i: int)
    requires
        0 <= i,
    ensures
        first_quote(s, i) matches Some(k) ==> i <= k < s.len(),
    decreases s.len() - i,
{
    if i < s.len() && !(s[i] == '"' || s[i] == '\'') {
        lemma_first_quote(s, i + 1);
    }
}

/// The last occurrence of a literal in `s`.
fn rfind_lit(s: &[char], lit: &str) -> (r: Option<usize>)
    ensures
        match r {
            Some(k) => last_occurrence(s@, lit@, s@.len() - lit@.len()) == Some(k as int),
            None => last_occurrence(s@, lit@, s@.len() - lit@.len()) is None,
        },
{
    let p = chars_of(lit);
    let n = s.len();
    let m = p.len();
    if m > n {
        assert(last_occurrence(s@, lit@, n - m) is None);
        return None;
    }
    let mut k = n - m;
    loop
        invariant
            k <= n - m,
            n == s@.len(),
            m == p@.len(),
            p@ == lit@,
            last_occurrence(s@, lit@, n - m) == last_occurrence(s@, lit@, k as int),
        decreases k,
    {
        if crate::text::occurs_at_exec(s, k, p.as_slice()) {
            return Some(k);
        }
        if k == 0 {
            assert(last_occurrence(s@, lit@, -1) is None);
            return None;
        }
        k = k - 1;
    }
}

proof fn lemma_last_occurrence(s: Seq<char>, p: Seq<char>, k: int)
    ensures
        last_occurrence(s, p, k) matches Some(j) ==> 0 <= j <= k && occurs_at(s, j, p),
    decreases k + 1,
{
    if k >= 0 && !occurs_at(s, k, p) {
        lemma_last_occurrence(s, p, k - 1);
    }
}

pub fn is_resource_string_context(prefix: &str) -> (r: bool)
    ensures
        r == resource_string_spec(prefix@),
{
    proof {
        reveal_strlit("resource(");
    }
    let chars = chars_of(prefix);
    let line = line_prefix_exec(chars.as_slice());
    let n = line.len();
    let found = match rfind_lit(line.as_slice(), "resource(") {
        Some(k) => k,
        None => return false,
    };
    proof {
        lemma_last_occurrence(line@, "resource("@, n - 9);
    }
    let start = found + 9;
    let ghost after = line@.subrange(start as int, n as int);
    let mut q = start;
    while q < n && !(line[q] == '"' || line[q] == '\'')
        invariant
            start <= q <= n,
            n == line@.len(),
            after == line@.subrange(start as int, n as int),
            first_quote(after, 0) == first_quote(after, (q - start) as int),
        decreases n - q,
    {
        assert(after[(q - start) as int] == line@[q as int]);
        q = q + 1;
    }
    if q == n {
        return false;
    }
    assert(after[(q - start) as int] == line@[q as int]);
    let quote = line[q];
    let rest = subrange_vec(line.as_slice(), q + 1, n);
    assert(rest@ =~= after.subrange((q - start) + 1, after.len() as int));
    let pattern = vec![quote];
    assert(pattern@ =~= seq![quote]);
    crate::text::find_exec(rest.as_slice(), pattern.as_slice(), 0).is_none()
}

/// Which completion a cursor position asks for.
#[derive(Debug, PartialEq, Eq)]
pub enum CompletionContext {
    /// Inside the quoted path of a `resource(...)`.
    ResourcePath,
    /// Before `provided by instance` or `required by instance`.
    InstancePort(InstancePortContext),
    /// After `port provided by` or `port required by`.
    InstanceName,
    /// In a word that starts with a backtick.
    ModelReference,
    /// At the start of a document.
    TopLevel,
    /// In an expression inside a braced body.
    InstanceScopedExpression,
    /// Elsewhere inside a braced body.
    Statement,
    /// Nowhere completions are offered.
    Nothing,
}

/// The kinds of completion, tried in order: resource path, instance port,
/// instance name, model reference, top level, instance-scoped expression,
/// statement.
pub open spec fn context_kind(prefix: Seq<char>, suffix: Seq<char>) -> int {
    if resource_string_spec(prefix) {
        0
    } else if instance_port_spec(suffix) is Some {
        1
    } else if instance_name_spec(prefix) {
        2
    } else if model_reference_spec(prefix) {
        3
    } else if top_level_spec(prefix) {
        4
    } else if instance_scoped_expression_spec(prefix) {
        5
    } else if braced_body_spec(prefix) {
        6
    } else {
        7
    }
}

pub open spec fn kind_of_context(c: CompletionContext) -> int {
    match c {
        CompletionContext::ResourcePath => 0,
        CompletionContext::InstancePort(_) => 1,
        CompletionContext::InstanceName => 2,
        CompletionContext::ModelReference => 3,
        CompletionContext::TopLevel => 4,
        CompletionContext::InstanceScopedExpression => 5,
        CompletionContext::Statement => 6,
        CompletionContext::Nothing => 7,
    }
}

/// The completion asked for by the text before and after the cursor.
pub fn completion_context(prefix: &str, suffix: &str) -> (r: CompletionContext)
    ensures
        kind_of_context(r) == context_kind(prefix@, suffix@),
        r matches CompletionContext::InstancePort(c) ==> instance_port_spec(suffix@) == Some(
            (c.direction, c.instance_name@),
        ),
{
    if is_resource_string_context(prefix) {
        return CompletionContext::ResourcePath;
    }
    match instance_port_context(suffix) {
        Some(context) => {
            return CompletionContext::InstancePort(context);
        },
        None => {},
    }
    if is_instance_name_context(prefix) {
        return CompletionContext::InstanceName;
    }
    if is_model_reference_context(prefix) {
        return CompletionContext::ModelReference;
    }
    if is_top_level_context(prefix) {
        return CompletionContext::TopLevel;
    }
    if is_instance_scoped_expression_context(prefix) {
        return CompletionContext::InstanceScopedExpression;
    }
    if is_braced_body_context(prefix) {
        return CompletionContext::Statement;
    }
    CompletionContext::Nothing
}

// ---------------------------------------------------------------------------
// Items
// ---------------------------------------------------------------------------

/// What a completion item is.
#[derive(Clone, Copy, Debug, PartialEq, Eq, Structural)]
pub enum ItemKind {
    Snippet,
    Reference,
    Variable,
    File,
}

/// A completion item: a snippet or plain text to insert, or an edit of the
/// word before the cursor.
#[derive(Debug, PartialEq, Eq)]
pub struct CompletionEntry {
    pub label: String,
    pub kind: ItemKind,
    pub detail: String,
    /// Text inserted at the cursor, when the item does not edit a range.
    pub insert_text: Option<String>,
    /// Whether the inserted text is a snippet with placeholders.
    pub snippet: bool,
    pub filter_text: Option<String>,
    pub sort_text: Option<String>,
    /// The range replaced and the text put there.
    pub edit: Option<(crate::line_index::LspRange, String)>,
}

pub struct EntryView {
    pub label: Seq<char>,
    pub kind: ItemKind,
    pub detail: Seq<char>,
    pub insert_text: Option<Seq<char>>,
    pub snippet: bool,
    pub filter_text: Option<Seq<char>>,
    pub sort_text: Option<Seq<char>>,
    pub edit: Option<(crate::line_index::LspRange, Seq<char>)>,
}

impl View for CompletionEntry {
    type V = EntryView;

    open spec fn view(&self) -> EntryView {
        EntryView {
            label: self.label@,
            kind: self.kind,
            detail: self.detail@,
            insert_text: crate::expression::opt_text(self.insert_text),
            snippet: self.snippet,
            filter_text: crate::expression::opt_text(self.filter_text),
            sort_text: crate::expression::opt_text(self.sort_text),
            edit: match self.edit {
                Some((r, t)) => Some((r, t@)),
                None => None,
            },
        }
    }
}

pub open spec fn entries_view(v: Seq<CompletionEntry>) -> Seq<EntryView> {
    v.map_values(|e: CompletionEntry| e@)
}

pub open spec fn snippet_view(label: Seq<char>, detail: Seq<char>, text: Seq<char>) -> EntryView {
    EntryView {
        label,
        kind: ItemKind::Snippet,
        detail,
        insert_text: Some(text),
        snippet: true,
        filter_text: None,
        sort_text: None,
        edit: None,
    }
}

pub open spec fn plain_view(label: Seq<char>, kind: ItemKind, detail: Seq<char>, text: Seq<char>) -> EntryView {
    EntryView {
        label,
        kind,
        detail,
        insert_text: Some(text),
        snippet: false,
        filter_text: None,
        sort_text: None,
        edit: None,
    }
}

pub fn snippet_item(label: &str, detail: &str, insert_text: &str) -> (r: CompletionEntry)
    ensures
        r@ == snippet_view(label@, detail@, insert_text@),
{
    CompletionEntry {
        label: label.to_owned(),
        kind: ItemKind::Snippet,
        detail: detail.to_owned(),
        insert_text: Some(insert_text.to_owned()),
        snippet: true,
        filter_text: None,
        sort_text: None,
        edit: None,
    }
}

pub fn plain_item(label: &str, kind: ItemKind, detail: &str, insert_text: &str) -> (r: CompletionEntry)
    ensures
        r@ == plain_view(label@, kind, detail@, insert_text@),
{
    CompletionEntry {
        label: label.to_owned(),
        kind,
        detail: detail.to_owned(),
        insert_text: Some(insert_text.to_owned()),
        snippet: false,
        filter_text: None,
        sort_text: None,
        edit: None,
    }
}

/// The document snippets offered at the start of a document.
pub open spec fn top_level_items_spec() -> Seq<EntryView> {
    seq![
        snippet_view("mcdp"@, "MCDP document"@, "mcdp {\n  $0\n}"@),
        snippet_view("dp"@, "DP document"@, "dp {\n  $0\n}"@),
        snippet_view("catalog"@, "Catalog document"@, "catalog {\n  $0\n}"@),
        snippet_view("choose"@, "Choice composition"@, "choose (${1:Label}: `${2:model})"@),
        snippet_view(
            "intersection"@,
            "Intersection composition"@,
            "intersection (${1:Label}: `${2:model})"@,
        ),
        snippet_view("interface"@, "Interface document"@, "interface {\n  $0\n}"@),
        snippet_view("poset"@, "Poset document"@, "poset {\n  $0\n}"@),
        snippet_view(
            "template"@,
            "Template document"@,
            "template [${1:T}: `${2:Interface}] mcdp {\n  $0\n}"@,
        ),
        snippet_view(
            "specialize"@,
            "Template specialization"@,
            "specialize [${1:T}: `${2:model}] `${3:Template}"@,
        ),
    ]
}

pub fn top_level_document_items() -> (r: Vec<CompletionEntry>)
    ensures
        entries_view(r@) == top_level_items_spec(),
{
    let mut v: Vec<CompletionEntry> = Vec::new();
    v.push(snippet_item("mcdp", "MCDP document", "mcdp {\n  $0\n}"));
    v.push(snippet_item("dp", "DP document", "dp {\n  $0\n}"));
    v.push(snippet_item("catalog", "Catalog document", "catalog {\n  $0\n}"));
    v.push(snippet_item("choose", "Choice composition", "choose (${1:Label}: `${2:model})"));
    v.push(
        snippet_item(
            "intersection",
            "Intersection composition",
            "intersection (${1:Label}: `${2:model})",
        ),
    );
    v.push(snippet_item("interface", "Interface document", "interface {\n  $0\n}"));
    v.push(snippet_item("poset", "Poset document", "poset {\n  $0\n}"));
    v.push(
        snippet_item(
            "template",
            "Template document",
            "template [${1:T}: `${2:Interface}] mcdp {\n  $0\n}",
        ),
    );
    v.push(
        snippet_item(
            "specialize",
            "Template specialization",
            "specialize [${1:T}: `${2:model}] `${3:Template}",
        ),
    );
    assert(entries_view(v@) =~= top_level_items_spec());
    v
}

/// The statement snippets offered inside a braced body.
pub open spec fn statement_items_spec() -> Seq<EntryView> {
    seq![
        snippet_view("provides"@, "Functionality declaration"@, "provides ${1:name} [${2:Poset}]"@),
        snippet_view("requires"@, "Requirement declaration"@, "requires ${1:name} [${2:Poset}]"@),
        snippet_view("sub = instance"@, "Subproblem instance"@, "sub ${1:name} = instance `${2:model}"@),
        snippet_view(
            "implemented-by yaml resource"@,
            "YAML implementation binding"@,
            "implemented-by yaml resource(\"${1:path}\")"@,
        ),
        snippet_view("implements"@, "Interface implementation"@, "implements `${1:interface}"@),
        snippet_view("import model"@, "Model import"@, "import model `${1:model}"@),
    ]
}

pub fn statement_items() -> (r: Vec<CompletionEntry>)
    ensures
        entries_view(r@) == statement_items_spec(),
{
    let mut v: Vec<CompletionEntry> = Vec::new();
    v.push(snippet_item("provides", "Functionality declaration", "provides ${1:name} [${2:Poset}]"));
    v.push(snippet_item("requires", "Requirement declaration", "requires ${1:name} [${2:Poset}]"));
    v.push(snippet_item("sub = instance", "Subproblem instance", "sub ${1:name} = instance `${2:model}"));
    v.push(
        snippet_item(
            "implemented-by yaml resource",
            "YAML implementation binding",
            "implemented-by yaml resource(\"${1:path}\")",
        ),
    );
    v.push(snippet_item("implements", "Interface implementation", "implements `${1:interface}"));
    v.push(snippet_item("import model", "Model import", "import model `${1:model}"));
    assert(entries_view(v@) =~= statement_items_spec());
    v
}

pub open spec fn direction_label(d: PortDirection) -> Seq<char> {
    match d {
        PortDirection::Provides => "Provided"@,
        PortDirection::Requires => "Required"@,
    }
}

pub open spec fn direction_keyword(d: PortDirection) -> Seq<char> {
    match d {
        PortDirection::Provides => "provided"@,
        PortDirection::Requires => "required"@,
    }
}

pub fn port_direction_label(direction: PortDirection) -> (r: &'static str)
    ensures
        r@ == direction_label(direction),
{
    match direction {
        PortDirection::Provides => "Provided",
        PortDirection::Requires => "Required",
    }
}

pub fn port_direction_keyword(direction: PortDirection) -> (r: &'static str)
    ensures
        r@ == direction_keyword(direction),
{
    match direction {
        PortDirection::Provides => "provided",
        PortDirection::Requires => "required",
    }
}

/// `port provided by instance` or `port required by instance`.
pub open spec fn scoped_expression_spec(port: Seq<char>, d: PortDirection, instance: Seq<char>) -> Seq<char> {
    port + " "@ + direction_keyword(d) + " by "@ + instance
}

fn concat_strs(parts: &Vec<&str>) -> (r: String)
    ensures
        r@ == crate::text::join(crate::declaration::strs_view(parts@), ""@),
{
    let ghost pv = crate::declaration::strs_view(parts@);
    let mut words: Vec<Vec<char>> = Vec::new();
    let mut i: usize = 0;
    while i < parts.len()
        invariant
            i <= parts@.len(),
            pv == crate::declaration::strs_view(parts@),
            crate::text::vecs_view(words@) == pv.take(i as int),
        decreases parts@.len() - i,
    {
        let w = chars_of(parts[i]);
        proof {
            assert(pv[i as int] == parts@[i as int]@);
            assert(crate::text::vecs_view(words@.push(w)) =~= crate::text::vecs_view(words@).push(w@));
            assert(pv.take(i + 1) =~= pv.take(i as int).push(pv[i as int]));
        }
        words.push(w);
        i = i + 1;
    }
    assert(pv.take(parts@.len() as int) =~= pv);
    let mut out: Vec<char> = Vec::new();
    crate::text::join_labels(&words, "", &mut out);
    assert(out@ =~= crate::text::join(pv, ""@));
    string_from_chars(out.as_slice())
}

proof fn lemma_join_empty_sep(parts: Seq<Seq<char>>)
    ensures
        parts.len() == 5 ==> crate::text::join(parts, ""@) == parts[0] + parts[1] + parts[2] + parts[3] + parts[4],
        parts.len() == 3 ==> crate::text::join(parts, ""@) == parts[0] + parts[1] + parts[2],
{
    reveal_strlit("");
    let e = ""@;
    assert(e.len() == 0);
    if parts.len() >= 3 {
        let p1 = parts.take(1);
        let p2 = parts.take(2);
        let p3 = parts.take(3);
        assert(p2.drop_last() =~= p1);
        assert(p3.drop_last() =~= p2);
        assert(crate::text::join(p1, e) == parts[0]);
        assert(crate::text::join(p2, e) =~= parts[0] + parts[1]);
        assert(crate::text::join(p3, e) =~= parts[0] + parts[1] + parts[2]);
        if parts.len() == 3 {
            assert(parts =~= p3);
        }
        if parts.len() == 5 {
            let p4 = parts.take(4);
            assert(p4.drop_last() =~= p3);
            assert(parts.drop_last() =~= p4);
            assert(crate::text::join(p4, e) =~= parts[0] + parts[1] + parts[2] + parts[3]);
            assert(crate::text::join(parts, e) =~= parts[0] + parts[1] + parts[2] + parts[3] + parts[4]);
        }
    }
}

pub fn instance_scoped_expression(port_name: &str, direction: PortDirection, instance_name: &str) -> (r:
    String)
    ensures
        r@ == scoped_expression_spec(port_name@, direction, instance_name@),
{
    let parts: Vec<&str> = vec![port_name, " ", port_direction_keyword(direction), " by ", instance_name];
    let r = concat_strs(&parts);
    proof {
        lemma_join_empty_sep(crate::declaration::strs_view(parts@));
    }
    r
}

/// The item for a port of an instance: the whole expression as label, the
/// port alone or the whole expression inserted over the word before the
/// cursor.
pub open spec fn port_item_spec(
    port: Seq<char>,
    unit: Option<Seq<char>>,
    d: PortDirection,
    instance: Seq<char>,
    mode: InstancePortInsertMode,
    replace: crate::line_index::LspRange,
) -> EntryView {
    let expression = scoped_expression_spec(port, d, instance);
    let new_text = match mode {
        InstancePortInsertMode::PortOnly => port,
        InstancePortInsertMode::FullExpression => expression,
    };
    let detail = match unit {
        Some(u) => direction_label(d) + " port from `"@ + instance + "` ["@ + u + "]"@,
        None => direction_label(d) + " port from `"@ + instance + "`"@,
    };
    EntryView {
        label: expression,
        kind: ItemKind::Variable,
        detail,
        insert_text: None,
        snippet: false,
        filter_text: Some(port + " "@ + expression),
        sort_text: Some(instance + " "@ + port),
        edit: Some((replace, new_text)),
    }
}

pub fn port_item(
    port_name: &str,
    unit_text: Option<&str>,
    direction: PortDirection,
    instance_name: &str,
    insert_mode: InstancePortInsertMode,
    replace_range: crate::line_index::LspRange,
) -> (r: CompletionEntry)
    ensures
        r@ == port_item_spec(
            port_name@,
            match unit_text {
                Some(u) => Some(u@),
                None => None,
            },
            direction,
            instance_name@,
            insert_mode,
            replace_range,
        ),
{
    let expression = instance_scoped_expression(port_name, direction, instance_name);
    let new_text = match insert_mode {
        InstancePortInsertMode::PortOnly => port_name.to_owned(),
        InstancePortInsertMode::FullExpression => expression.clone(),
    };
    let label = port_direction_label(direction);
    let detail = match unit_text {
        Some(unit) => {
            let parts: Vec<&str> = vec![label, " port from `", instance_name, "` [", unit];
            let head = concat_strs(&parts);
            proof {
                lemma_join_empty_sep(crate::declaration::strs_view(parts@));
            }
            let tail = vec![head.as_str(), "]", ""];
            let d = concat_strs(&tail);
            proof {
                lemma_join_empty_sep(crate::declaration::strs_view(tail@));
                reveal_strlit("");
                assert(d@ =~= label@ + " port from `"@ + instance_name@ + "` ["@ + unit@ + "]"@);
            }
            d
        },
        None => {
            let parts: Vec<&str> = vec![label, " port from `", instance_name, "`", ""];
            let d = concat_strs(&parts);
            proof {
                lemma_join_empty_sep(crate::declaration::strs_view(parts@));
                reveal_strlit("");
                assert(d@ =~= label@ + " port from `"@ + instance_name@ + "`"@);
            }
            d
        },
    };
    let filter_parts: Vec<&str> = vec![port_name, " ", expression.as_str()];
    let filter_text = concat_strs(&filter_parts);
    let sort_parts: Vec<&str> = vec![instance_name, " ", port_name];
    let sort_text = concat_strs(&sort_parts);
    proof {
        lemma_join_empty_sep(crate::declaration::strs_view(filter_parts@));
        lemma_join_empty_sep(crate::declaration::strs_view(sort_parts@));
    }
    CompletionEntry {
        label: expression,
        kind: ItemKind::Variable,
        detail,
        insert_text: None,
        snippet: false,
        filter_text: Some(filter_text),
        sort_text: Some(sort_text),
        edit: Some((replace_range, new_text)),
    }
}

pub open spec fn is_name_char(c: char) -> bool {
    ('a' <= c && c <= 'z') || ('A' <= c && c <= 'Z') || ('0' <= c && c <= '9') || c == '_'
}

pub fn is_completion_name_char(ch: char) -> (r: bool)
    ensures
        r == is_name_char(ch),
{
    ('a' <= ch && ch <= 'z') || ('A' <= ch && ch <= 'Z') || ('0' <= ch && ch <= '9') || ch == '_'
}

/// Start of the word that ends at character `k`: the characters before it
/// that are ASCII letters, digits or underscores.
pub open spec fn word_start(s: Seq<char>, k: int) -> int
    decreases k,
{
    if k <= 0 || !is_name_char(s[k - 1]) {
        k
    } else {
        word_start(s, k - 1)
    }
}

pub fn completion_word_start(source: &[char], k: usize) -> (r: usize)
    requires
        k <= source@.len(),
    ensures
        r == word_start(source@, k as int),
        r <= k,
{
    let mut start = k;
    while start > 0 && is_completion_name_char(source[start - 1])
        invariant
            start <= k <= source@.len(),
            word_start(source@, k as int) == word_start(source@, start as int),
        decreases start,
    {
        start = start - 1;
    }
    start
}

/// Whether a file extension names an MCDPL model file.
pub open spec fn is_model_extension(ext: Seq<char>) -> bool {
    ext == "mcdp"@ || ext == "mcdp_interface"@ || ext == "mcdp_template"@ || ext == "mcdp_poset"@
}

pub fn is_mcdpl_model_extension(extension: &str) -> (r: bool)
    ensures
        r == is_model_extension(extension@),
{
    str_eq(extension, "mcdp") || str_eq(extension, "mcdp_interface") || str_eq(extension, "mcdp_template")
        || str_eq(extension, "mcdp_poset")
}

pub fn is_yaml_extension(extension: &str) -> (r: bool)
    ensures
        r == (extension@ == "yaml"@ || extension@ == "yml"@),
{
    str_eq(extension, "yaml") || str_eq(extension, "yml")
}

/// A path as completion text, with `/` separators.
pub fn path_to_completion_text(path: &str) -> (r: String)
    ensures
        r@ == path@.map_values(|c: char| if c == '\\' { '/' } else { c }),
{
    let chars = chars_of(path);
    let mut out: Vec<char> = Vec::new();
    let mut i: usize = 0;
    while i < chars.len()
        invariant
            i <= chars@.len(),
            out@ == chars@.take(i as int).map_values(|c: char| if c == '\\' { '/' } else { c }),
        decreases chars@.len() - i,
    {
        let c = if chars[i] == '\\' { '/' } else { chars[i] };
        out.push(c);
        assert(chars@.take(i + 1).map_values(|c: char| if c == '\\' { '/' } else { c }) =~= chars@.take(
            i as int,
        ).map_values(|c: char| if c == '\\' { '/' } else { c }).push(c));
        i = i + 1;
    }
    assert(chars@.take(chars@.len() as int) =~= chars@);
    string_from_chars(out.as_slice())
}

// ---------------------------------------------------------------------------
// Files offered as completions
// ---------------------------------------------------------------------------

/// A file found in a document's directory, or in a directory below it: its
/// path from that directory, and its stem and extension where they are text.
pub struct FoundFile {
    pub relative_path: String,
    pub stem: Option<String>,
    pub extension: Option<String>,
}

pub struct FoundFileView {
    pub relative_path: Seq<char>,
    pub stem: Option<Seq<char>>,
    pub extension: Option<Seq<char>>,
}

impl View for FoundFile {
    type V = FoundFileView;

    open spec fn view(&self) -> FoundFileView {
        FoundFileView {
            relative_path: self.relative_path@,
            stem: crate::project::opt_string(self.stem),
            extension: crate::project::opt_string(self.extension),
        }
    }
}

pub open spec fn found_views(s: Seq<FoundFile>) -> Seq<FoundFileView> {
    s.map_values(|f: FoundFile| f@)
}

/// The stems of the model files among the first `k` files, in order.
pub open spec fn model_stems_upto(s: Seq<FoundFileView>, k: int) -> Seq<Seq<char>>
    decreases k,
{
    if k <= 0 {
        Seq::empty()
    } else {
        let p = model_stems_upto(s, k - 1);
        let f = s[k - 1];
        match (f.extension, f.stem) {
            (Some(e), Some(stem)) => if is_model_extension(e) {
                p.push(stem)
            } else {
                p
            },
            _ => p,
        }
    }
}

/// A path as completion text: its separators written `/`.
pub open spec fn completion_path_text(path: Seq<char>) -> Seq<char> {
    path.map_values(|c: char| if c == '\\' { '/' } else { c })
}

/// The paths of the YAML files among the first `k` files, as completion
/// text, in order.
pub open spec fn yaml_paths_upto(s: Seq<FoundFileView>, k: int) -> Seq<Seq<char>>
    decreases k,
{
    if k <= 0 {
        Seq::empty()
    } else {
        let p = yaml_paths_upto(s, k - 1);
        let f = s[k - 1];
        match f.extension {
            Some(e) => if e == "yaml"@ || e == "yml"@ {
                p.push(completion_path_text(f.relative_path))
            } else {
                p
            },
            None => p,
        }
    }
}

/// The paths of the model files among the first `k` files, in order.
pub open spec fn model_paths_upto(s: Seq<FoundFileView>, k: int) -> Seq<Seq<char>>
    decreases k,
{
    if k <= 0 {
        Seq::empty()
    } else {
        let p = model_paths_upto(s, k - 1);
        match s[k - 1].extension {
            Some(e) => if is_model_extension(e) {
                p.push(s[k - 1].relative_path)
            } else {
                p
            },
            None => p,
        }
    }
}

/// The files of a document's directory that belong to its project: the
/// model files, by their paths, in the order found.
pub fn model_file_paths(files: &Vec<FoundFile>) -> (r: Vec<String>)
    ensures
        crate::split::strings_view(r@) == model_paths_upto(found_views(files@), files@.len() as int),
{
    let ghost fv = found_views(files@);
    let mut paths: Vec<String> = Vec::new();
    assert(crate::split::strings_view(paths@) =~= Seq::<Seq<char>>::empty());
    let mut k: usize = 0;
    while k < files.len()
        invariant
            k <= files@.len(),
            fv == found_views(files@),
            crate::split::strings_view(paths@) == model_paths_upto(fv, k as int),
        decreases files@.len() - k,
    {
        let f = &files[k];
        assert(fv[k as int] == f@);
        match &f.extension {
            Some(e) => {
                if is_mcdpl_model_extension(e.as_str()) {
                    let path = f.relative_path.clone();
                    paths.push(path);
                    assert(crate::split::strings_view(paths@) =~= model_paths_upto(fv, k as int).push(
                        f.relative_path@,
                    ));
                }
            },
            None => {},
        }
        k = k + 1;
    }
    paths
}

/// The model names that the files of a document's directory offer: the
/// stems of its model files, sorted, each once.
pub fn directory_model_names(files: &Vec<FoundFile>) -> (r: Vec<String>)
    ensures
        crate::split::strings_view(r@) == crate::project::sorted_names(
            model_stems_upto(found_views(files@), files@.len() as int),
        ),
{
    let ghost fv = found_views(files@);
    let mut stems: Vec<String> = Vec::new();
    assert(crate::split::strings_view(stems@) =~= Seq::<Seq<char>>::empty());
    let mut k: usize = 0;
    while k < files.len()
        invariant
            k <= files@.len(),
            fv == found_views(files@),
            crate::split::strings_view(stems@) == model_stems_upto(fv, k as int),
        decreases files@.len() - k,
    {
        let f = &files[k];
        assert(fv[k as int] == f@);
        match (&f.extension, &f.stem) {
            (Some(e), Some(stem)) => {
                if is_mcdpl_model_extension(e.as_str()) {
                    let copy = stem.clone();
                    stems.push(copy);
                    assert(crate::split::strings_view(stems@) =~= model_stems_upto(fv, k as int).push(
                        stem@,
                    ));
                }
            },
            _ => {},
        }
        k = k + 1;
    }
    crate::project::sort_names(stems)
}

/// The resource paths that the files found offer: the paths of the YAML
/// files, as completion text, sorted, each once.
pub fn resource_completion_paths(files: &Vec<FoundFile>) -> (r: Vec<String>)
    ensures
        crate::split::strings_view(r@) == crate::project::sorted_names(
            yaml_paths_upto(found_views(files@), files@.len() as int),
        ),
{
    let ghost fv = found_views(files@);
    let mut paths: Vec<String> = Vec::new();
    assert(crate::split::strings_view(paths@) =~= Seq::<Seq<char>>::empty());
    let mut k: usize = 0;
    while k < files.len()
        invariant
            k <= files@.len(),
            fv == found_views(files@),
            crate::split::strings_view(paths@) == yaml_paths_upto(fv, k as int),
        decreases files@.len() - k,
    {
        let f = &files[k];
        assert(fv[k as int] == f@);
        match &f.extension {
            Some(e) => {
                if is_yaml_extension(e.as_str()) {
                    let text = path_to_completion_text(f.relative_path.as_str());
                    paths.push(text);
                    assert(crate::split::strings_view(paths@) =~= yaml_paths_upto(fv, k as int).push(
                        completion_path_text(f.relative_path@),
                    ));
                }
            },
            None => {},
        }
        k = k + 1;
    }
    crate::project::sort_names(paths)
}

// ---------------------------------------------------------------------------
// Requests
// ---------------------------------------------------------------------------

/// The trigger characters that ask the editor for completions.
pub open spec fn trigger_characters_spec() -> Seq<Seq<char>> {
    seq!["`"@, "\""@, "/"@, " "@, "+"@, "-"@, "*"@, "="@, "<"@, ">"@, "≤"@, "≥"@]
}

pub fn trigger_characters() -> (r: Vec<&'static str>)
    ensures
        crate::declaration::strs_view(r@) == trigger_characters_spec(),
{
    let v: Vec<&'static str> = vec!["`", "\"", "/", " ", "+", "-", "*", "=", "<", ">", "≤", "≥"];
    assert(crate::declaration::strs_view(v@) =~= trigger_characters_spec());
    v
}

/// What a completion request at a position comes to: the context, the range
/// of the word before the cursor, and the items that need no project
/// knowledge (the document and statement snippets).
#[derive(Debug, PartialEq, Eq)]
pub struct CompletionRequest {
    pub context: CompletionContext,
    pub replace_range: crate::line_index::LspRange,
    pub items: Vec<CompletionEntry>,
}

/// The character index of the cursor for an editor position.
pub open spec fn cursor_char(s: Seq<char>, p: crate::line_index::LspPosition) -> int {
    crate::line_index::clamp_char(s, crate::line_index::offset_spec(s, p))
}

pub open spec fn request_spec_holds(s: Seq<char>, p: crate::line_index::LspPosition, r: CompletionRequest) -> bool {
    let k = cursor_char(s, p);
    let prefix = s.subrange(0, k);
    let suffix = s.subrange(k, s.len() as int);
    let kind = context_kind(prefix, suffix);
    &&& kind_of_context(r.context) == kind
    &&& (r.context matches CompletionContext::InstancePort(c) ==> instance_port_spec(suffix) == Some(
        (c.direction, c.instance_name@),
    ))
    &&& r.replace_range == (crate::line_index::LspRange {
        start: crate::line_index::position_spec(s, crate::line_index::byte_at(s, word_start(s, k))),
        end: crate::line_index::position_spec(s, crate::line_index::offset_spec(s, p)),
    })
    &&& entries_view(r.items@) == (if kind == 4 {
        top_level_items_spec()
    } else if kind == 6 {
        statement_items_spec()
    } else {
        Seq::empty()
    })
}

/// The completion request at a position of a text.
pub fn completion_request(source: &str, position: crate::line_index::LspPosition) -> (r: CompletionRequest)
    ensures
        request_spec_holds(source@, position, r),
{
    let line_index = crate::line_index::LineIndex::new(source);
    let offset = line_index.offset(position);
    let k = line_index.char_index(offset);
    let chars = line_index.text_chars();
    let prefix = string_from_range(chars.as_slice(), 0, k);
    let suffix = string_from_range(chars.as_slice(), k, chars.len());
    let start = completion_word_start(chars.as_slice(), k);
    let start_byte = line_index.byte_offset_of_char(start);
    let replace_range = line_index.range(crate::source::TextRange { start: start_byte, end: offset });
    let context = completion_context(prefix.as_str(), suffix.as_str());
    let items = match context {
        CompletionContext::TopLevel => top_level_document_items(),
        CompletionContext::Statement => statement_items(),
        _ => {
            let v: Vec<CompletionEntry> = Vec::new();
            assert(entries_view(v@) =~= Seq::<EntryView>::empty());
            v
        },
    };
    CompletionRequest { context, replace_range, items }
}

} // verus!
