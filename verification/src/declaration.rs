//! Parsers for the text of single declarations: ports, posets, instances,
//! assignments, constraints, implementations, catalog rows, choices and imports.

use vstd::prelude::*;
use crate::expression::{opt_text, parse_unit_chars, parse_unit_spec};
use crate::graph::{PortDirection, Relation};
use crate::poset::{fields_view, lemma_fields_view, lemma_fields_view_push, poset_view, NamedPoset, PosetRef, PosetView};
use crate::split::{
    depth_before, first_top_level_from, lemma_first_top_level, lemma_split_parts_len,
    split_top_level, split_top_level_once, split_top_level_spec, strings_view, CharDepth,
};
use crate::syntax::depth_zero;
use crate::text::{
    char_width, chars_of, collapse_whitespace, collapse_whitespace_exec, eq_lit, find, find_exec,
    find_lit, is_whitespace, last_index_of, last_index_of_exec, lemma_collapse_len,
    lemma_find_from, lemma_last_index_of, lemma_trim_len, occurs_at, skip_char, skip_char_vec,
    split_words, starts_with_lit, str_eq, string_from_chars, string_from_range, strip_prefix_lit,
    strip_prefix_spec, subrange_vec, trim, trim_bounds, trim_chars, trim_string,
    unicode_whitespace, utf8_width, vecs_view, words,
};

verus! {

// ---------------------------------------------------------------------------
// Brackets and model references
// ---------------------------------------------------------------------------

/// The trimmed text between the first `[` and the last `]`, when the `]`
/// comes after the `[`.
pub open spec fn bracketed_spec(s: Seq<char>) -> Option<Seq<char>> {
    match find(s, "["@) {
        None => None,
        Some(start) => match last_index_of(s, ']') {
            None => None,
            Some(end) => if end <= start {
                None
            } else {
                Some(trim(s.subrange(start + 1, end)))
            },
        },
    }
}

fn extract_bracketed(text: &[char]) -> (r: Option<Vec<char>>)
    ensures
        match r {
            Some(v) => bracketed_spec(text@) == Some(v@),
            None => bracketed_spec(text@) is None,
        },
{
    let start = match find_lit(text, "[", 0) {
        Some(k) => k,
        None => return None,
    };
    let end = match last_index_of_exec(text, ']') {
        Some(k) => k,
        None => return None,
    };
    proof {
        reveal_strlit("[");
        lemma_find_from(text@, "["@, 0);
        lemma_last_index_of(text@, ']');
    }
    if end <= start {
        return None;
    }
    let (a, b) = trim_bounds(text, start + 1, end);
    Some(subrange_vec(text, a, b))
}

/// Characters that end a model reference.
pub open spec fn is_model_ref_stop(c: char) -> bool {
    unicode_whitespace(c) || c == ',' || c == ')' || c == ']'
}

/// The longest prefix of `s` without a model-reference stop character.
pub open spec fn until_stop(s: Seq<char>) -> Seq<char>
    decreases s.len(),
{
    if s.len() == 0 || is_model_ref_stop(s[0]) {
        Seq::empty()
    } else {
        seq![s[0]] + until_stop(s.drop_first())
    }
}

fn until_stop_vec(s: &[char]) -> (r: Vec<char>)
    ensures
        r@ == until_stop(s@),
{
    let mut i: usize = 0;
    assert(s@.subrange(0, s@.len() as int) =~= s@);
    while i < s.len() && !(is_whitespace(s[i]) || s[i] == ',' || s[i] == ')' || s[i] == ']')
        invariant
            i <= s@.len(),
            until_stop(s@) == s@.subrange(0, i as int) + until_stop(
                s@.subrange(i as int, s@.len() as int),
            ),
        decreases s@.len() - i,
    {
        let ghost rest = s@.subrange(i as int, s@.len() as int);
        assert(rest.drop_first() =~= s@.subrange(i + 1, s@.len() as int));
        assert(s@.subrange(0, i + 1) =~= s@.subrange(0, i as int) + seq![s@[i as int]]);
        i = i + 1;
    }
    proof {
        let rest = s@.subrange(i as int, s@.len() as int);
        assert(until_stop(rest) =~= Seq::<char>::empty());
        assert(s@.subrange(0, i as int) + Seq::<char>::empty() =~= s@.subrange(0, i as int));
    }
    subrange_vec(s, 0, i)
}

/// A model reference: the text up to the first separator, without backticks
/// and surrounding whitespace; nothing when that is empty.
pub open spec fn model_ref_spec(s: Seq<char>) -> Option<Seq<char>> {
    let t = trim(skip_char(trim(s), '`'));
    let m = trim(skip_char(until_stop(t), '`'));
    if m.len() == 0 {
        None
    } else {
        Some(m)
    }
}

fn parse_model_ref(text: &[char]) -> (r: Option<String>)
    ensures
        match r {
            Some(v) => model_ref_spec(text@) == Some(v@),
            None => model_ref_spec(text@) is None,
        },
{
    let t0 = trim_chars(text);
    let t1 = skip_char_vec(t0.as_slice(), '`');
    let t = trim_chars(t1.as_slice());
    let m0 = until_stop_vec(t.as_slice());
    let m1 = skip_char_vec(m0.as_slice(), '`');
    let m = trim_chars(m1.as_slice());
    if m.len() == 0 {
        None
    } else {
        Some(string_from_chars(m.as_slice()))
    }
}

/// `s` up to the first `c`, or all of `s`.
pub open spec fn before_char(s: Seq<char>, c: char) -> Seq<char> {
    match find(s, seq![c]) {
        Some(k) => s.subrange(0, k),
        None => s,
    }
}

/// An instance declaration `[sub] name = instance `model`: the name and the model.
pub open spec fn instance_decl_spec(s: Seq<char>) -> Option<(Seq<char>, Seq<char>)> {
    match find(s, "instance"@) {
        None => None,
        Some(k) => {
            let before0 = trim(s.subrange(0, k));
            let before = trim(
                match strip_prefix_spec(before0, "sub"@) {
                    Some(r) => r,
                    None => before0,
                },
            );
            let name = trim(before_char(before, '='));
            match model_ref_spec(s.subrange(k + "instance"@.len(), s.len() as int)) {
                None => None,
                Some(target) => if name.len() == 0 || target.len() == 0 {
                    None
                } else {
                    Some((name, target))
                },
            }
        },
    }
}

pub(crate) fn parse_instance_decl(text: &[char]) -> (r: Option<(String, String)>)
    ensures
        match r {
            Some((n, m)) => instance_decl_spec(text@) == Some((n@, m@)),
            None => instance_decl_spec(text@) is None,
        },
{
    let n = text.len();
    proof {
        reveal_strlit("instance");
        reveal_strlit("sub");
    }
    let k = match find_lit(text, "instance", 0) {
        Some(k) => k,
        None => return None,
    };
    proof {
        lemma_find_from(text@, "instance"@, 0);
    }
    let (a, b) = trim_bounds(text, 0, k);
    let before0 = subrange_vec(text, a, b);
    assert(before0@ == trim(text@.subrange(0, k as int)));
    let before1 = match strip_prefix_lit(before0.as_slice(), "sub") {
        Some(r) => r,
        None => before0,
    };
    let before = trim_chars(before1.as_slice());
    let name = match find_lit(before.as_slice(), "=", 0) {
        Some(e) => {
            proof {
                reveal_strlit("=");
                assert("="@ =~= seq!['=']);
                lemma_find_from(before@, "="@, 0);
            }
            trim_chars(subrange_vec(before.as_slice(), 0, e).as_slice())
        },
        None => {
            proof {
                reveal_strlit("=");
                assert("="@ =~= seq!['=']);
            }
            trim_chars(before.as_slice())
        },
    };
    assert(k + 8 <= text@.len());
    let rest = subrange_vec(text, k + 8, text.len());
    let target = match parse_model_ref(rest.as_slice()) {
        Some(t) => t,
        None => return None,
    };
    if name.len() == 0 || target.as_str().is_empty() {
        return None;
    }
    Some((string_from_chars(name.as_slice()), target))
}

// ---------------------------------------------------------------------------
// Top-level operators, assignments and relations
// ---------------------------------------------------------------------------

pub open spec fn strs_view(v: Seq<&str>) -> Seq<Seq<char>> {
    v.map_values(|x: &str| x@)
}

/// Whether one of `ops` occurs in `s` at `i`.
pub open spec fn op_at(s: Seq<char>, i: int, ops: Seq<Seq<char>>) -> bool {
    exists|k: int| 0 <= k < ops.len() && occurs_at(s, i, #[trigger] ops[k])
}

/// Index of the first character at or after `i` that lies outside every
/// bracket pair (braces included) and starts one of `ops`.
pub open spec fn top_level_op_from(s: Seq<char>, ops: Seq<Seq<char>>, i: int) -> Option<int>
    decreases s.len() - i,
{
    if i < 0 || i >= s.len() {
        None
    } else if depth_zero(depth_before(s, i + 1, true)) && op_at(s, i, ops) {
        Some(i)
    } else {
        top_level_op_from(s, ops, i + 1)
    }
}

pub proof fn lemma_top_level_op_from(s: Seq<char>, ops: Seq<Seq<char>>, i: int)
    requires
        0 <= i,
    ensures
        top_level_op_from(s, ops, i) matches Some(k) ==> i <= k < s.len() && op_at(s, k, ops)
            && depth_zero(depth_before(s, k + 1, true)),
    decreases s.len() - i,
{
    if i < s.len() && !(depth_zero(depth_before(s, i + 1, true)) && op_at(s, i, ops)) {
        lemma_top_level_op_from(s, ops, i + 1);
    }
}

fn any_op_at(text: &[char], i: usize, ops: &[&str]) -> (r: bool)
    ensures
        r == op_at(text@, i as int, strs_view(ops@)),
{
    let ghost ov = strs_view(ops@);
    let mut k: usize = 0;
    while k < ops.len()
        invariant
            k <= ops@.len(),
            ov == strs_view(ops@),
            forall|j: int| 0 <= j < k ==> !occurs_at(text@, i as int, #[trigger] ov[j]),
        decreases ops@.len() - k,
    {
        if starts_with_lit(text, i, ops[k]) {
            assert(ov[k as int] == ops@[k as int]@);
            return true;
        }
        assert(ov[k as int] == ops@[k as int]@);
        k = k + 1;
    }
    false
}

fn find_top_level_operator(text: &[char], operators: &[&str]) -> (r: Option<usize>)
    ensures
        match r {
            Some(k) => top_level_op_from(text@, strs_view(operators@), 0) == Some(k as int),
            None => top_level_op_from(text@, strs_view(operators@), 0) is None,
        },
{
    let ghost ops = strs_view(operators@);
    let mut depth = CharDepth::zero();
    let mut i: usize = 0;
    while i < text.len()
        invariant
            i <= text@.len(),
            ops == strs_view(operators@),
            depth.bounded(i as int),
            depth.view_depth() == depth_before(text@, i as int, true),
            top_level_op_from(text@, ops, 0) == top_level_op_from(text@, ops, i as int),
        decreases text@.len() - i,
    {
        depth.observe(text[i], true, Ghost(i as int));
        if depth.is_zero() && any_op_at(text, i, operators) {
            return Some(i);
        }
        i = i + 1;
    }
    None
}

/// The target of an assignment, without a leading `constant`.
pub open spec fn assignment_target_spec(s: Seq<char>) -> Seq<char> {
    match strip_prefix_spec(s, "constant"@) {
        Some(r) => trim(r),
        None => s,
    }
}

fn normalize_assignment_target(text: &[char]) -> (r: Vec<char>)
    ensures
        r@ == assignment_target_spec(text@),
{
    match strip_prefix_lit(text, "constant") {
        Some(rest) => trim_chars(rest.as_slice()),
        None => subrange_vec(text, 0, text.len()),
    }
}

/// An assignment `target = expression` split at its first top-level `=`.
pub open spec fn assignment_spec(s: Seq<char>) -> Option<(Seq<char>, Seq<char>)> {
    match top_level_op_from(s, seq!["="@], 0) {
        None => None,
        Some(i) => {
            let left = assignment_target_spec(trim(s.subrange(0, i)));
            let right = trim(s.subrange(i + 1, s.len() as int));
            if left.len() == 0 || right.len() == 0 {
                None
            } else {
                Some((left, right))
            }
        },
    }
}

pub(crate) fn split_assignment(text: &[char]) -> (r: Option<(String, String)>)
    ensures
        match r {
            Some((l, e)) => assignment_spec(text@) == Some((l@, e@)),
            None => assignment_spec(text@) is None,
        },
{
    let n = text.len();
    let ops: Vec<&str> = vec!["="];
    assert(strs_view(ops@) =~= seq!["="@]);
    let index = match find_top_level_operator(text, ops.as_slice()) {
        Some(i) => i,
        None => return None,
    };
    proof {
        lemma_top_level_op_from(text@, seq!["="@], 0);
    }
    let (a, b) = trim_bounds(text, 0, index);
    let left0 = subrange_vec(text, a, b);
    let left = normalize_assignment_target(left0.as_slice());
    let (c, d) = trim_bounds(text, index + 1, text.len());
    if left.len() == 0 || c == d {
        return None;
    }
    Some((string_from_chars(left.as_slice()), string_from_range(text, c, d)))
}

/// The relation operators, in the order they are tried.
pub open spec fn relation_ops() -> Seq<Seq<char>> {
    seq!["<="@, ">="@, "≤"@, "≥"@, "⪯"@, "⪰"@]
}

/// Index in `ops` of the first operator that occurs in `s` at `i`.
pub open spec fn first_op_at(s: Seq<char>, i: int, ops: Seq<Seq<char>>, k: int) -> Option<int>
    decreases ops.len() - k,
{
    if k < 0 || k >= ops.len() {
        None
    } else if occurs_at(s, i, ops[k]) {
        Some(k)
    } else {
        first_op_at(s, i, ops, k + 1)
    }
}

/// The relation an operator stands for.
pub open spec fn relation_for(op: Seq<char>) -> Option<Relation> {
    if op == "<="@ || op == "≤"@ || op == "⪯"@ {
        Some(Relation::Leq)
    } else if op == ">="@ || op == "≥"@ || op == "⪰"@ {
        Some(Relation::Geq)
    } else {
        None
    }
}

/// A constraint `left op right` split at its first top-level relation operator.
pub open spec fn relation_spec(s: Seq<char>) -> Option<(Seq<char>, Relation, Seq<char>)> {
    match top_level_op_from(s, relation_ops(), 0) {
        None => None,
        Some(i) => match first_op_at(s, i, relation_ops(), 0) {
            None => None,
            Some(k) => {
                let op = relation_ops()[k];
                let left = trim(s.subrange(0, i));
                let right = trim(s.subrange(i + op.len(), s.len() as int));
                if left.len() == 0 || right.len() == 0 {
                    None
                } else {
                    match relation_for(op) {
                        Some(r) => Some((left, r, right)),
                        None => None,
                    }
                }
            },
        },
    }
}

proof fn lemma_first_op_at(s: Seq<char>, i: int, ops: Seq<Seq<char>>, k: int)
    requires
        0 <= k,
    ensures
        first_op_at(s, i, ops, k) matches Some(j) ==> k <= j < ops.len() && occurs_at(s, i, ops[j]),
    decreases ops.len() - k,
{
    if k < ops.len() && !occurs_at(s, i, ops[k]) {
        lemma_first_op_at(s, i, ops, k + 1);
    }
}

/// A less-than operator: `<=`, `≤` or `⪯` starts with one of these.
pub open spec fn starts_less(c: char) -> bool {
    c == '<' || c == '≤' || c == '⪯'
}

/// A greater-than operator: `>=`, `≥` or `⪰` starts with one of these.
pub open spec fn starts_greater(c: char) -> bool {
    c == '>' || c == '≥' || c == '⪰'
}

/// A constraint splits at an operator outside brackets, with the text
/// before it as the left side: the relation is `Leq` exactly when that
/// operator is a less-than one (`<=`, `≤`, `⪯`) and `Geq` exactly when it is
/// a greater-than one (`>=`, `≥`, `⪰`); no other relation comes out.
pub proof fn relation_follows_the_operator(s: Seq<char>)
    ensures
        relation_spec(s) matches Some((left, rel, right)) ==> exists|i: int|
            0 <= i < s.len() && depth_zero(depth_before(s, i + 1, true)) && left == trim(#[trigger] s.subrange(0, i))
                && (rel == Relation::Leq <==> starts_less(s[i])) && (rel == Relation::Geq <==> starts_greater(s[i]))
                && (rel == Relation::Leq || rel == Relation::Geq),
{
    lemma_top_level_op_from(s, relation_ops(), 0);
    match top_level_op_from(s, relation_ops(), 0) {
        None => {},
        Some(i) => {
            lemma_first_op_at(s, i, relation_ops(), 0);
            match first_op_at(s, i, relation_ops(), 0) {
                None => {},
                Some(k) => {
                    let op = relation_ops()[k];
                    reveal_strlit("<=");
                    reveal_strlit(">=");
                    reveal_strlit("≤");
                    reveal_strlit("≥");
                    reveal_strlit("⪯");
                    reveal_strlit("⪰");
                    assert(s.subrange(i, i + op.len()) == op);
                    assert(s[i] == s.subrange(i, i + op.len())[0]);
                    assert(s[i] == op[0]);
                    if k == 0 {
                        assert(op =~= "<="@);
                    } else if k == 1 {
                        assert(op =~= ">="@);
                    } else if k == 2 {
                        assert(op =~= "≤"@);
                    } else if k == 3 {
                        assert(op =~= "≥"@);
                    } else if k == 4 {
                        assert(op =~= "⪯"@);
                    } else {
                        assert(op =~= "⪰"@);
                    }
                },
            }
        },
    }
}

pub(crate) fn split_relation(text: &[char]) -> (r: Option<(String, Relation, String)>)
    ensures
        match r {
            Some((l, rel, rt)) => relation_spec(text@) == Some((l@, rel, rt@)),
            None => relation_spec(text@) is None,
        },
{
    let n = text.len();
    let relations: Vec<&str> = vec!["<=", ">=", "≤", "≥", "⪯", "⪰"];
    let ghost ops = strs_view(relations@);
    assert(ops =~= relation_ops());
    let index = match find_top_level_operator(text, relations.as_slice()) {
        Some(i) => i,
        None => return None,
    };
    proof {
        lemma_top_level_op_from(text@, ops, 0);
    }
    let mut k: usize = 0;
    while k < relations.len() && !starts_with_lit(text, index, relations[k])
        invariant
            k <= relations@.len(),
            ops == strs_view(relations@),
            relations@.len() == 6,
            first_op_at(text@, index as int, ops, 0) == first_op_at(text@, index as int, ops, k as int),
        decreases relations@.len() - k,
    {
        assert(ops[k as int] == relations@[k as int]@);
        k = k + 1;
    }
    if k == relations.len() {
        return None;
    }
    assert(ops[k as int] == relations@[k as int]@);
    let operator = relations[k];
    let op_len = operator.unicode_len();
    assert(occurs_at(text@, index as int, ops[k as int]));
    let (a, b) = trim_bounds(text, 0, index);
    let (c, d) = trim_bounds(text, index + op_len, text.len());
    if a == b || c == d {
        return None;
    }
    let relation = if str_eq(operator, "<=") || str_eq(operator, "≤") || str_eq(operator, "⪯") {
        Relation::Leq
    } else if str_eq(operator, ">=") || str_eq(operator, "≥") || str_eq(operator, "⪰") {
        Relation::Geq
    } else {
        return None;
    };
    Some((string_from_range(text, a, b), relation, string_from_range(text, c, d)))
}

// ---------------------------------------------------------------------------
// Posets
// ---------------------------------------------------------------------------

/// The contents of `product(...)`.
pub open spec fn product_inner(n: Seq<char>) -> Option<Seq<char>> {
    match strip_prefix_spec(n, "product("@) {
        Some(r) => if r.len() > 0 && r.last() == ')' {
            Some(r.drop_last())
        } else {
            None
        },
        None => None,
    }
}

/// A poset reference: whitespace is collapsed, then a backtick names a
/// project poset, `product(name: poset, ...)` lists fields, and anything else
/// is a unit.
pub open spec fn poset_spec(s: Seq<char>) -> PosetView
    decreases s.len(), 2int, 0int,
{
    let n = collapse_whitespace(s);
    if n.len() > 0 && n[0] == '`' {
        PosetView::Named(trim(n.drop_first()))
    } else {
        match product_inner(n) {
            Some(inner) => {
                proof {
                    lemma_collapse_len(s);
                    reveal_strlit("product(");
                }
                match product_fields_spec(inner) {
                    Some(f) => PosetView::Product(f),
                    None => PosetView::Unit(parse_unit_spec(n)),
                }
            },
            None => PosetView::Unit(parse_unit_spec(n)),
        }
    }
}

/// The fields of a product: every top-level comma-separated part must be
/// `name: poset` with both sides non-blank.
pub open spec fn product_fields_spec(inner: Seq<char>) -> Option<Seq<(Seq<char>, PosetView)>>
    decreases inner.len(), 1int, 0int,
{
    fields_upto(inner, split_top_level_spec(inner, ',', true).len() as int)
}

/// The fields of the first `k` parts of a product.
pub open spec fn fields_upto(inner: Seq<char>, k: int) -> Option<Seq<(Seq<char>, PosetView)>>
    decreases inner.len(), 0int, k,
{
    let parts = split_top_level_spec(inner, ',', true);
    if k <= 0 || k > parts.len() {
        Some(Seq::empty())
    } else {
        match fields_upto(inner, k - 1) {
            None => None,
            Some(acc) => {
                let part = parts[k - 1];
                match first_top_level_from(part, ':', true, 0) {
                    None => None,
                    Some(colon) => {
                        let name = trim(part.subrange(0, colon));
                        let text = trim(part.subrange(colon + 1, part.len() as int));
                        if name.len() == 0 || text.len() == 0 {
                            None
                        } else {
                            proof {
                                lemma_split_parts_len(inner, ',', true);
                                lemma_first_top_level(part, ':', true, 0);
                                lemma_trim_len(part.subrange(colon + 1, part.len() as int));
                                assert(part.len() <= inner.len());
                            }
                            Some(acc.push((name, poset_spec(text))))
                        }
                    },
                }
            },
        }
    }
}

pub proof fn lemma_fields_upto_none(inner: Seq<char>, j: int, k: int)
    requires
        0 <= j <= k,
        fields_upto(inner, j) is None,
    ensures
        k <= split_top_level_spec(inner, ',', true).len() ==> fields_upto(inner, k) is None,
    decreases k - j,
{
    if j < k {
        lemma_fields_upto_none(inner, j, k - 1);
    }
}

fn parse_poset_ref(text: &[char]) -> (r: PosetRef)
    ensures
        poset_view(r) == poset_spec(text@),
    decreases text@.len(), 1int,
{
    let n = collapse_whitespace_exec(text);
    proof {
        lemma_collapse_len(text@);
        reveal_strlit("product(");
    }
    if n.len() > 0 && n[0] == '`' {
        let t = trim_string(subrange_vec(n.as_slice(), 1, n.len()).as_slice());
        assert(n@.subrange(1, n@.len() as int) =~= n@.drop_first());
        return PosetRef::Named(t);
    }
    match strip_prefix_lit(n.as_slice(), "product(") {
        Some(r) => {
            if r.len() > 0 && r[r.len() - 1] == ')' {
                let inner = subrange_vec(r.as_slice(), 0, r.len() - 1);
                assert(inner@ =~= r@.drop_last());
                match parse_product_fields(inner.as_slice()) {
                    Some(fields) => {
                        proof {
                            lemma_fields_view(fields@);
                        }
                        return PosetRef::Product(fields);
                    },
                    None => {},
                }
            }
        },
        None => {},
    }
    PosetRef::Unit(parse_unit_chars(n.as_slice()))
}

fn parse_product_fields(inner: &[char]) -> (r: Option<Vec<NamedPoset>>)
    ensures
        match r {
            Some(v) => product_fields_spec(inner@) == Some(fields_view(v@)),
            None => product_fields_spec(inner@) is None,
        },
    decreases inner@.len(), 0int,
{
    let parts = split_top_level(inner, ',', true);
    let ghost ps = split_top_level_spec(inner@, ',', true);
    proof {
        lemma_split_parts_len(inner@, ',', true);
    }
    let mut fields: Vec<NamedPoset> = Vec::new();
    let mut k: usize = 0;
    proof {
        lemma_fields_view(fields@);
        assert(fields_view(fields@) =~= Seq::<(Seq<char>, PosetView)>::empty());
    }
    while k < parts.len()
        invariant
            k <= parts@.len(),
            ps == split_top_level_spec(inner@, ',', true),
            strings_view(parts@) == ps,
            forall|j: int| 0 <= j < ps.len() ==> (#[trigger] ps[j]).len() <= inner@.len(),
            fields_upto(inner@, k as int) == Some(fields_view(fields@)),
        decreases parts@.len() - k,
    {
        let field = chars_of(parts[k].as_str());
        let field_len = field.len();
        assert(field@ == ps[k as int]);
        let colon = match split_top_level_once(field.as_slice(), ':', true) {
            Some(c) => c,
            None => {
                proof {
                    lemma_fields_upto_none(inner@, k + 1, ps.len() as int);
                }
                return None;
            },
        };
        proof {
            lemma_first_top_level(field@, ':', true, 0);
        }
        let (a, b) = trim_bounds(field.as_slice(), 0, colon);
        let (c, d) = trim_bounds(field.as_slice(), colon + 1, field.len());
        if a == b || c == d {
            proof {
                lemma_fields_upto_none(inner@, k + 1, ps.len() as int);
            }
            return None;
        }
        let text = subrange_vec(field.as_slice(), c, d);
        proof {
            lemma_trim_len(field@.subrange(colon + 1, field@.len() as int));
        }
        let poset = parse_poset_ref(text.as_slice());
        let named = NamedPoset::new(string_from_range(field.as_slice(), a, b), poset);
        proof {
            lemma_fields_view_push(fields@, named);
        }
        fields.push(named);
        k = k + 1;
    }
    Some(fields)
}

// ---------------------------------------------------------------------------
// Ports
// ---------------------------------------------------------------------------

/// The keyword that opens a port declaration of a direction.
pub open spec fn port_keyword(d: PortDirection) -> Seq<char> {
    match d {
        PortDirection::Provides => "provides"@,
        PortDirection::Requires => "requires"@,
    }
}

/// A port declaration `provides name [poset]` or `requires name [poset]`: a
/// single-word name before the first `[`, and the poset in the brackets.
pub open spec fn port_decl_spec(s: Seq<char>, d: PortDirection) -> Option<(Seq<char>, PosetView)> {
    match strip_prefix_spec(trim(s), port_keyword(d)) {
        None => None,
        Some(r) => {
            let rest = trim(r);
            match find(rest, "["@) {
                None => None,
                Some(b) => {
                    let name = trim(rest.subrange(0, b));
                    if name.len() == 0 || words(name).len() != 1 {
                        None
                    } else {
                        match bracketed_spec(rest.subrange(b, rest.len() as int)) {
                            None => None,
                            Some(inner) => Some((name, poset_spec(inner))),
                        }
                    }
                },
            }
        },
    }
}

pub(crate) fn parse_port_decl(text: &[char], direction: PortDirection) -> (r: Option<(String, PosetRef)>)
    ensures
        match r {
            Some((n, p)) => port_decl_spec(text@, direction) == Some((n@, poset_view(p))),
            None => port_decl_spec(text@, direction) is None,
        },
{
    let keyword = match direction {
        PortDirection::Provides => "provides",
        PortDirection::Requires => "requires",
    };
    let t = trim_chars(text);
    let r = match strip_prefix_lit(t.as_slice(), keyword) {
        Some(r) => r,
        None => return None,
    };
    let rest = trim_chars(r.as_slice());
    let b = match find_lit(rest.as_slice(), "[", 0) {
        Some(b) => b,
        None => return None,
    };
    proof {
        reveal_strlit("[");
        lemma_find_from(rest@, "["@, 0);
    }
    let (na, nb) = trim_bounds(rest.as_slice(), 0, b);
    let name = subrange_vec(rest.as_slice(), na, nb);
    if name.len() == 0 || split_words(name.as_slice()).len() != 1 {
        return None;
    }
    let tail = subrange_vec(rest.as_slice(), b, rest.len());
    let inner = match extract_bracketed(tail.as_slice()) {
        Some(i) => i,
        None => return None,
    };
    let poset = parse_poset_ref(inner.as_slice());
    Some((string_from_chars(name.as_slice()), poset))
}

// ---------------------------------------------------------------------------
// Implementations and interfaces
// ---------------------------------------------------------------------------

/// An `implemented-by` statement: backend, resource path and the raw text
/// after the keyword.
pub(crate) struct ParsedImplementation {
    pub(crate) backend: String,
    pub(crate) resource: Option<String>,
    pub(crate) raw: String,
}

/// Index of the first quote (`"` or `'`) in `s` at or after `i`.
pub open spec fn first_quote_from(s: Seq<char>, i: int) -> Option<int>
    decreases s.len() - i,
{
    if i < 0 || i >= s.len() {
        None
    } else if s[i] == '"' || s[i] == '\'' {
        Some(i)
    } else {
        first_quote_from(s, i + 1)
    }
}

/// The path in `resource("...")`: after `resource(` and leading whitespace,
/// the first quote character picks the delimiter; the path runs from the
/// second character up to the next occurrence of that delimiter. The second
/// character must start at byte offset one.
pub open spec fn resource_path_spec(s: Seq<char>) -> Option<Seq<char>> {
    match find(s, "resource("@) {
        None => None,
        Some(k) => {
            let inside = trim(s.subrange(k + "resource("@.len(), s.len() as int));
            match first_quote_from(inside, 0) {
                None => None,
                Some(qi) => if char_width(inside[0]) != 1 {
                    None
                } else {
                    let after = inside.drop_first();
                    match find(after, seq![inside[qi]]) {
                        None => None,
                        Some(e) => Some(after.subrange(0, e)),
                    }
                },
            }
        },
    }
}

pub proof fn lemma_first_quote_from(s: Seq<char>, i: int)
    requires
        0 <= i,
    ensures
        first_quote_from(s, i) matches Some(k) ==> i <= k < s.len(),
    decreases s.len() - i,
{
    if i < s.len() && !(s[i] == '"' || s[i] == '\'') {
        lemma_first_quote_from(s, i + 1);
    }
}

fn extract_resource_path(text: &[char]) -> (r: Option<String>)
    ensures
        match r {
            Some(v) => resource_path_spec(text@) == Some(v@),
            None => resource_path_spec(text@) is None,
        },
{
    let n = text.len();
    let k = match find_lit(text, "resource(", 0) {
        Some(k) => k,
        None => return None,
    };
    proof {
        reveal_strlit("resource(");
        lemma_find_from(text@, "resource("@, 0);
    }
    let (a, b) = trim_bounds(text, k + 9, text.len());
    let inside = subrange_vec(text, a, b);
    let mut qi: usize = 0;
    while qi < inside.len() && !(inside[qi] == '"' || inside[qi] == '\'')
        invariant
            qi <= inside@.len(),
            first_quote_from(inside@, 0) == first_quote_from(inside@, qi as int),
        decreases inside@.len() - qi,
    {
        qi = qi + 1;
    }
    if qi == inside.len() {
        return None;
    }
    let quote = inside[qi];
    if utf8_width(inside[0]) != 1 {
        return None;
    }
    let after = subrange_vec(inside.as_slice(), 1, inside.len());
    assert(after@ =~= inside@.drop_first());
    let q = vec![quote];
    assert(q@ =~= seq![quote]);
    let e = match find_exec(after.as_slice(), q.as_slice(), 0) {
        Some(e) => e,
        None => return None,
    };
    proof {
        lemma_find_from(after@, q@, 0);
    }
    Some(string_from_range(after.as_slice(), 0, e))
}

/// An `implemented-by backend ...` statement.
pub open spec fn implementation_spec(s: Seq<char>) -> Option<(Seq<char>, Option<Seq<char>>, Seq<char>)> {
    match strip_prefix_spec(trim(s), "implemented-by"@) {
        None => None,
        Some(r) => {
            let rest = trim(r);
            let ws = words(rest);
            if ws.len() == 0 {
                None
            } else {
                Some((ws[0], resource_path_spec(rest), rest))
            }
        },
    }
}

pub(crate) fn parse_implementation_decl(text: &[char]) -> (r: Option<ParsedImplementation>)
    ensures
        match r {
            Some(p) => implementation_spec(text@) == Some(
                (p.backend@, opt_text(p.resource), p.raw@),
            ),
            None => implementation_spec(text@) is None,
        },
{
    let t = trim_chars(text);
    let r = match strip_prefix_lit(t.as_slice(), "implemented-by") {
        Some(r) => r,
        None => return None,
    };
    let rest = trim_chars(r.as_slice());
    let ws = split_words(rest.as_slice());
    if ws.len() == 0 {
        return None;
    }
    assert(ws@[0]@ == vecs_view(ws@)[0]);
    let backend = string_from_chars(ws[0].as_slice());
    Some(
        ParsedImplementation {
            backend,
            resource: extract_resource_path(rest.as_slice()),
            raw: string_from_chars(rest.as_slice()),
        },
    )
}

/// An `implements `interface` statement: the referenced model.
pub open spec fn interface_impl_spec(s: Seq<char>) -> Option<Seq<char>> {
    match strip_prefix_spec(trim(s), "implements"@) {
        None => None,
        Some(r) => model_ref_spec(trim(r)),
    }
}

pub(crate) fn parse_interface_impl_decl(text: &[char]) -> (r: Option<String>)
    ensures
        match r {
            Some(v) => interface_impl_spec(text@) == Some(v@),
            None => interface_impl_spec(text@) is None,
        },
{
    let t = trim_chars(text);
    let r = match strip_prefix_lit(t.as_slice(), "implements") {
        Some(r) => r,
        None => return None,
    };
    let rest = trim_chars(r.as_slice());
    parse_model_ref(rest.as_slice())
}

// ---------------------------------------------------------------------------
// Catalog rows, choices and imports
// ---------------------------------------------------------------------------

pub open spec fn left_markers() -> Seq<Seq<char>> {
    seq!["<--|"@, "<-|"@, "↤"@]
}

pub open spec fn right_markers() -> Seq<Seq<char>> {
    seq!["|-->"@, "|->"@, "↦"@]
}

/// Among the first `k` markers, the one found earliest in `s`, with the
/// position where it is found; on a tie the marker listed first.
pub open spec fn first_marker(s: Seq<char>, ms: Seq<Seq<char>>, k: int) -> Option<(int, int)>
    decreases k,
{
    if k <= 0 {
        None
    } else {
        let prev = first_marker(s, ms, k - 1);
        match find(s, ms[k - 1]) {
            None => prev,
            Some(i) => match prev {
                None => Some((i, k - 1)),
                Some((pi, pk)) => if i < pi {
                    Some((i, k - 1))
                } else {
                    prev
                },
            },
        }
    }
}

pub proof fn lemma_first_marker(s: Seq<char>, ms: Seq<Seq<char>>, k: int)
    requires
        0 <= k <= ms.len(),
    ensures
        first_marker(s, ms, k) matches Some((i, m)) ==> 0 <= m < k && occurs_at(s, i, ms[m]),
    decreases k,
{
    if k > 0 {
        lemma_first_marker(s, ms, k - 1);
        lemma_find_from(s, ms[k - 1], 0);
    }
}

/// A marker found in a text: where, and which.
struct MarkerMatch {
    index: usize,
    marker: usize,
}

fn find_first_marker(text: &[char], markers: &[&str]) -> (r: Option<MarkerMatch>)
    ensures
        match r {
            Some(m) => first_marker(text@, strs_view(markers@), markers@.len() as int) == Some(
                (m.index as int, m.marker as int),
            ),
            None => first_marker(text@, strs_view(markers@), markers@.len() as int) is None,
        },
{
    let ghost ms = strs_view(markers@);
    let mut best: Option<MarkerMatch> = None;
    let mut k: usize = 0;
    while k < markers.len()
        invariant
            k <= markers@.len(),
            ms == strs_view(markers@),
            match best {
                Some(m) => first_marker(text@, ms, k as int) == Some((m.index as int, m.marker as int)),
                None => first_marker(text@, ms, k as int) is None,
            },
        decreases markers@.len() - k,
    {
        assert(ms[k as int] == markers@[k as int]@);
        match find_lit(text, markers[k], 0) {
            Some(i) => {
                let better = match &best {
                    Some(m) => i < m.index,
                    None => true,
                };
                if better {
                    best = Some(MarkerMatch { index: i, marker: k });
                }
            },
            None => {},
        }
        k = k + 1;
    }
    best
}

/// An inline catalog row `provided <-| implementation |-> required`.
pub open spec fn catalog_record_spec(s: Seq<char>) -> Option<(Seq<char>, Seq<char>, Seq<char>)> {
    match first_marker(s, left_markers(), 3) {
        None => None,
        Some((li, lm)) => {
            let start = li + left_markers()[lm].len();
            match first_marker(s.subrange(start, s.len() as int), right_markers(), 3) {
                None => None,
                Some((ri, rm)) => {
                    let right = start + ri;
                    let provides = trim(s.subrange(0, li));
                    let implementation = trim(s.subrange(start, right));
                    let required = trim(
                        s.subrange(right + right_markers()[rm].len(), s.len() as int),
                    );
                    if provides.len() == 0 || implementation.len() == 0 || required.len() == 0 {
                        None
                    } else {
                        Some((provides, implementation, required))
                    }
                },
            }
        },
    }
}

pub(crate) fn parse_catalog_record(text: &[char]) -> (r: Option<(String, String, String)>)
    ensures
        match r {
            Some((p, i, q)) => catalog_record_spec(text@) == Some((p@, i@, q@)),
            None => catalog_record_spec(text@) is None,
        },
{
    let n = text.len();
    let lefts: Vec<&str> = vec!["<--|", "<-|", "↤"];
    let rights: Vec<&str> = vec!["|-->", "|->", "↦"];
    assert(strs_view(lefts@) =~= left_markers());
    assert(strs_view(rights@) =~= right_markers());
    let left = match find_first_marker(text, lefts.as_slice()) {
        Some(m) => m,
        None => return None,
    };
    proof {
        lemma_first_marker(text@, left_markers(), 3);
    }
    assert(strs_view(lefts@)[left.marker as int] == lefts@[left.marker as int]@);
    let start = left.index + lefts[left.marker].unicode_len();
    let rest = subrange_vec(text, start, text.len());
    let right = match find_first_marker(rest.as_slice(), rights.as_slice()) {
        Some(m) => m,
        None => return None,
    };
    proof {
        lemma_first_marker(rest@, right_markers(), 3);
    }
    assert(strs_view(rights@)[right.marker as int] == rights@[right.marker as int]@);
    let right_index = start + right.index;
    let (pa, pb) = trim_bounds(text, 0, left.index);
    let (ia, ib) = trim_bounds(text, start, right_index);
    let (qa, qb) = trim_bounds(text, right_index + rights[right.marker].unicode_len(), text.len());
    if pa == pb || ia == ib || qa == qb {
        return None;
    }
    Some(
        (
            string_from_range(text, pa, pb),
            string_from_range(text, ia, ib),
            string_from_range(text, qa, qb),
        ),
    )
}

/// A choice entry `Name: `Model`, split at the first top-level colon.
pub open spec fn choice_decl_spec(s: Seq<char>) -> Option<(Seq<char>, Seq<char>)> {
    match first_top_level_from(s, ':', true, 0) {
        None => None,
        Some(k) => {
            let name = trim(s.subrange(0, k));
            match model_ref_spec(trim(s.subrange(k + 1, s.len() as int))) {
                None => None,
                Some(target) => if name.len() == 0 {
                    None
                } else {
                    Some((name, target))
                },
            }
        },
    }
}

pub(crate) fn parse_choice_decl(text: &[char]) -> (r: Option<(String, String)>)
    ensures
        match r {
            Some((n, t)) => choice_decl_spec(text@) == Some((n@, t@)),
            None => choice_decl_spec(text@) is None,
        },
{
    let n = text.len();
    let k = match split_top_level_once(text, ':', true) {
        Some(k) => k,
        None => return None,
    };
    proof {
        lemma_first_top_level(text@, ':', true, 0);
    }
    let (a, b) = trim_bounds(text, 0, k);
    let (c, d) = trim_bounds(text, k + 1, text.len());
    let target_text = subrange_vec(text, c, d);
    let target = match parse_model_ref(target_text.as_slice()) {
        Some(t) => t,
        None => return None,
    };
    if a == b {
        return None;
    }
    Some((string_from_range(text, a, b), target))
}

/// The imported model names among words: `model` and `models` are skipped,
/// leading backticks removed, and empty names dropped.
pub open spec fn import_models(ws: Seq<Seq<char>>) -> Seq<Seq<char>>
    decreases ws.len(),
{
    if ws.len() == 0 {
        Seq::empty()
    } else {
        let m = import_models(ws.drop_last());
        let w = ws.last();
        if w == "model"@ || w == "models"@ {
            m
        } else {
            let t = skip_char(w, '`');
            if t.len() == 0 {
                m
            } else {
                m.push(t)
            }
        }
    }
}

pub open spec fn commas_to_spaces(s: Seq<char>) -> Seq<char> {
    s.map_values(|c: char| if c == ',' { ' ' } else { c })
}

/// An import statement: the model names after `import`.
pub open spec fn import_decl_spec(s: Seq<char>) -> Option<Seq<Seq<char>>> {
    match find(s, "import"@) {
        None => None,
        Some(k) => {
            let models = import_models(
                words(commas_to_spaces(s.subrange(k + "import"@.len(), s.len() as int))),
            );
            if models.len() == 0 {
                None
            } else {
                Some(models)
            }
        },
    }
}

pub(crate) fn parse_import_decl(text: &[char]) -> (r: Option<Vec<String>>)
    ensures
        match r {
            Some(v) => import_decl_spec(text@) == Some(strings_view(v@)),
            None => import_decl_spec(text@) is None,
        },
{
    let n = text.len();
    let k = match find_lit(text, "import", 0) {
        Some(k) => k,
        None => return None,
    };
    proof {
        reveal_strlit("import");
        lemma_find_from(text@, "import"@, 0);
    }
    let mut imported: Vec<char> = Vec::new();
    let mut i = k + 6;
    while i < text.len()
        invariant
            k + 6 <= i <= text@.len(),
            imported@ == commas_to_spaces(text@.subrange(k + 6, i as int)),
        decreases text@.len() - i,
    {
        let c = if text[i] == ',' { ' ' } else { text[i] };
        imported.push(c);
        assert(commas_to_spaces(text@.subrange(k + 6, i + 1)) =~= commas_to_spaces(
            text@.subrange(k + 6, i as int),
        ).push(c));
        i = i + 1;
    }
    let ws = split_words(imported.as_slice());
    let ghost wv = vecs_view(ws@);
    let mut models: Vec<String> = Vec::new();
    let mut j: usize = 0;
    while j < ws.len()
        invariant
            j <= ws@.len(),
            wv == vecs_view(ws@),
            strings_view(models@) == import_models(wv.take(j as int)),
        decreases ws@.len() - j,
    {
        let w = ws[j].as_slice();
        assert(w@ == wv[j as int]);
        assert(wv.take(j + 1).drop_last() =~= wv.take(j as int));
        if !(eq_lit(w, "model") || eq_lit(w, "models")) {
            let t = skip_char_vec(w, '`');
            if t.len() > 0 {
                let name = string_from_chars(t.as_slice());
                assert(strings_view(models@.push(name)) =~= strings_view(models@).push(name@));
                models.push(name);
            }
        }
        j = j + 1;
    }
    assert(wv.take(ws@.len() as int) =~= wv);
    if models.len() == 0 {
        None
    } else {
        Some(models)
    }
}

} // verus!
