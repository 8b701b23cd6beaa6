//! Symbols of documents for editor features: hover texts, unit atoms of
//! declared units, and the ports, instances, references and bindings that a
//! document declares.

use vstd::prelude::*;
use crate::expression::{unit_view, units_view, lemma_units_view, UnitExpression, UnitView};
use crate::poset::{poset_view, PosetRef, PosetView};
use crate::split::strings_view;
use crate::line_index::{byte_at, clamp_char, LineIndex};
use crate::source::TextRange;
use crate::syntax::{
    dec, first_non_trivia_from, is_trivia, is_trivia_spec, parse_document, parse_document_spec,
    statements_view, text_is, tokens_view, DocumentKind, StatementKind, StatementView, Statement,
    Token, TokenKind, TokenView, SyntaxBody, SyntaxBodyView, lex_spec,
};
use crate::semantic::{lower_document, lower_document_spec, opt_model_view, ModelView, PortDeclView, SemanticModel};
use crate::source::SourceId;
use crate::text::{
    chars_of, join, join_labels, push_chars, push_range, str_eq, string_from_chars,
    string_from_range, strip_prefix_spec, subrange_vec, trim, trim_bounds, trim_chars,
    lemma_trim_len, skip_ws_from, skip_ws_back, lemma_skip_ws_from, lemma_skip_ws_back,
    unicode_whitespace,
};

verus! {

// ---------------------------------------------------------------------------
// Directions
// ---------------------------------------------------------------------------

/// Side of a port as references name it.
#[derive(Clone, Copy, Debug, PartialEq, Eq, Structural)]
pub enum PortDirection {
    Provided,
    Required,
}

impl PortDirection {
    pub fn hover_label(self) -> (r: &'static str)
        ensures
            r@ == (match self {
                PortDirection::Provided => "Provided"@,
                PortDirection::Required => "Required"@,
            }),
    {
        match self {
            PortDirection::Provided => "Provided",
            PortDirection::Required => "Required",
        }
    }

    pub fn role_description(self) -> (r: &'static str)
        ensures
            r@ == (match self {
                PortDirection::Provided => "functionality/output that the model can provide"@,
                PortDirection::Required => "resource/input that the model needs"@,
            }),
    {
        match self {
            PortDirection::Provided => "functionality/output that the model can provide",
            PortDirection::Required => "resource/input that the model needs",
        }
    }

    pub fn diagnostic_label(self) -> (r: &'static str)
        ensures
            r@ == (match self {
                PortDirection::Provided => "provided"@,
                PortDirection::Required => "required"@,
            }),
    {
        match self {
            PortDirection::Provided => "provided",
            PortDirection::Required => "required",
        }
    }

    pub fn declaration_keyword(self) -> (r: &'static str)
        ensures
            r@ == (match self {
                PortDirection::Provided => "`provides`"@,
                PortDirection::Required => "`requires`"@,
            }),
    {
        match self {
            PortDirection::Provided => "`provides`",
            PortDirection::Required => "`requires`",
        }
    }
}

// ---------------------------------------------------------------------------
// Hover texts
// ---------------------------------------------------------------------------

/// The hover text of a keyword or document kind.
pub open spec fn term_hover_spec(t: Seq<char>) -> Option<Seq<char>> {
    if t == "dp"@ {
        Some("**Document kind** `dp`\n\nA `dp` document defines one design problem: the functionality it provides and the resources it requires."@)
    } else if t == "mcdp"@ {
        Some("**Document kind** `mcdp`\n\nAn `mcdp` document composes design-problem instances, connects their ports, and exposes a public co-design interface."@)
    } else if t == "provides"@ {
        Some("**Keyword** `provides`\n\nDeclares a functionality/output produced by the current model."@)
    } else if t == "requires"@ {
        Some("**Keyword** `requires`\n\nDeclares a resource/input needed by the current model."@)
    } else if t == "provided"@ {
        Some("**Keyword** `provided`\n\nRefers to the functionality/output side of a variable or instance-scoped expression."@)
    } else if t == "required"@ {
        Some("**Keyword** `required`\n\nRefers to the requirement/input side of a variable or instance-scoped expression."@)
    } else if t == "instance"@ {
        Some("**Keyword** `instance`\n\nCreates a local binding to another MCDPL model. Instance-scoped variables resolve through this binding."@)
    } else if t == "implemented-by"@ {
        Some("**Keyword** `implemented-by`\n\nConnects a design problem to an external implementation resource, usually a YAML catalog."@)
    } else if t == "resource"@ {
        Some("**Function** `resource(...)`\n\nPoints to an external file used by an implementation binding."@)
    } else if t == "interface"@ {
        Some("**Document kind** `interface`\n\nDeclares a reusable set of provided and required ports without an implementation."@)
    } else if t == "poset"@ {
        Some("**Document kind** `poset`\n\nDeclares an ordered value space used by variables and units."@)
    } else if t == "catalog"@ {
        Some("**Document kind** `catalog`\n\nDeclares implementation records for a design problem."@)
    } else if t == "template"@ {
        Some("**Document kind** `template`\n\nDefines a parameterized MCDPL model that can be specialized later."@)
    } else {
        None
    }
}

pub fn term_hover_text(text: &str) -> (r: Option<&'static str>)
    ensures
        match r {
            Some(h) => term_hover_spec(text@) == Some(h@),
            None => term_hover_spec(text@) is None,
        },
{
    if str_eq(text, "dp") {
        Some("**Document kind** `dp`\n\nA `dp` document defines one design problem: the functionality it provides and the resources it requires.")
    } else if str_eq(text, "mcdp") {
        Some("**Document kind** `mcdp`\n\nAn `mcdp` document composes design-problem instances, connects their ports, and exposes a public co-design interface.")
    } else if str_eq(text, "provides") {
        Some("**Keyword** `provides`\n\nDeclares a functionality/output produced by the current model.")
    } else if str_eq(text, "requires") {
        Some("**Keyword** `requires`\n\nDeclares a resource/input needed by the current model.")
    } else if str_eq(text, "provided") {
        Some("**Keyword** `provided`\n\nRefers to the functionality/output side of a variable or instance-scoped expression.")
    } else if str_eq(text, "required") {
        Some("**Keyword** `required`\n\nRefers to the requirement/input side of a variable or instance-scoped expression.")
    } else if str_eq(text, "instance") {
        Some("**Keyword** `instance`\n\nCreates a local binding to another MCDPL model. Instance-scoped variables resolve through this binding.")
    } else if str_eq(text, "implemented-by") {
        Some("**Keyword** `implemented-by`\n\nConnects a design problem to an external implementation resource, usually a YAML catalog.")
    } else if str_eq(text, "resource") {
        Some("**Function** `resource(...)`\n\nPoints to an external file used by an implementation binding.")
    } else if str_eq(text, "interface") {
        Some("**Document kind** `interface`\n\nDeclares a reusable set of provided and required ports without an implementation.")
    } else if str_eq(text, "poset") {
        Some("**Document kind** `poset`\n\nDeclares an ordered value space used by variables and units.")
    } else if str_eq(text, "catalog") {
        Some("**Document kind** `catalog`\n\nDeclares implementation records for a design problem.")
    } else if str_eq(text, "template") {
        Some("**Document kind** `template`\n\nDefines a parameterized MCDPL model that can be specialized later.")
    } else {
        None
    }
}

/// A built-in poset and what it measures.
#[derive(Clone, Copy, Debug, PartialEq, Eq)]
pub struct PrimitivePoset {
    pub name: &'static str,
    pub description: &'static str,
}

/// The built-in posets, by name and description.
pub open spec fn primitive_posets_spec() -> Seq<(Seq<char>, Seq<char>)> {
    seq![
        ("Nat"@, "Natural numbers"@),
        ("Bool"@, "Boolean truth values"@),
        ("Real"@, "Real numbers"@),
        ("Reals"@, "Real numbers"@),
        ("N"@, "newtons, force"@),
        ("Nm"@, "newton-meters, torque or energy"@),
        ("J"@, "joules, energy"@),
        ("W"@, "watts, power"@),
        ("USD"@, "US dollars, cost"@),
        ("kg"@, "kilograms, mass"@),
        ("g"@, "grams, mass"@),
        ("m"@, "meters, length"@),
        ("s"@, "seconds, time"@),
        ("rad"@, "radians, angle"@),
    ]
}

pub open spec fn primitives_view(v: Seq<PrimitivePoset>) -> Seq<(Seq<char>, Seq<char>)> {
    v.map_values(|p: PrimitivePoset| (p.name@, p.description@))
}

fn primitive(name: &'static str, description: &'static str) -> (r: PrimitivePoset)
    ensures
        r.name@ == name@,
        r.description@ == description@,
{
    PrimitivePoset { name, description }
}

pub fn primitive_posets() -> (r: Vec<PrimitivePoset>)
    ensures
        primitives_view(r@) == primitive_posets_spec(),
{
    let mut v: Vec<PrimitivePoset> = Vec::new();
    v.push(primitive("Nat", "Natural numbers"));
    v.push(primitive("Bool", "Boolean truth values"));
    v.push(primitive("Real", "Real numbers"));
    v.push(primitive("Reals", "Real numbers"));
    v.push(primitive("N", "newtons, force"));
    v.push(primitive("Nm", "newton-meters, torque or energy"));
    v.push(primitive("J", "joules, energy"));
    v.push(primitive("W", "watts, power"));
    v.push(primitive("USD", "US dollars, cost"));
    v.push(primitive("kg", "kilograms, mass"));
    v.push(primitive("g", "grams, mass"));
    v.push(primitive("m", "meters, length"));
    v.push(primitive("s", "seconds, time"));
    v.push(primitive("rad", "radians, angle"));
    assert(primitives_view(v@) =~= primitive_posets_spec());
    v
}

/// Index of the first built-in poset named `t` among the first `k`.
pub open spec fn primitive_index(t: Seq<char>, k: int) -> Option<int>
    decreases k,
{
    if k <= 0 {
        None
    } else {
        match primitive_index(t, k - 1) {
            Some(j) => Some(j),
            None => if primitive_posets_spec()[k - 1].0 == t {
                Some(k - 1)
            } else {
                None
            },
        }
    }
}

/// The hover text of a built-in poset name.
pub open spec fn primitive_hover_spec(t: Seq<char>) -> Option<Seq<char>> {
    match primitive_index(t, 14) {
        Some(j) => Some(
            "**Primitive poset** `"@ + primitive_posets_spec()[j].0 + "`\n\n"@
                + primitive_posets_spec()[j].1 + "."@,
        ),
        None => None,
    }
}

fn find_primitive(text: &str) -> (r: Option<PrimitivePoset>)
    ensures
        match r {
            Some(p) => primitive_index(text@, 14) matches Some(j) && primitive_posets_spec()[j] == (
                p.name@,
                p.description@,
            ),
            None => primitive_index(text@, 14) is None,
        },
{
    let all = primitive_posets();
    let ghost pv = primitives_view(all@);
    assert(pv.len() == all@.len());
    assert(primitive_posets_spec().len() == 14);
    assert(all@.len() == 14);
    let mut k: usize = 0;
    while k < all.len()
        invariant
            k <= all@.len(),
            all@.len() == 14,
            pv == primitives_view(all@),
            pv == primitive_posets_spec(),
            primitive_index(text@, k as int) is None,
        decreases all@.len() - k,
    {
        assert(pv[k as int] == (all@[k as int].name@, all@[k as int].description@));
        if str_eq(all[k].name, text) {
            assert(primitive_index(text@, k + 1) == Some(k as int));
            assert(primitive_index(text@, 14) == Some(k as int)) by {
                lemma_primitive_index_stable(text@, k + 1, 14);
            }
            return Some(all[k]);
        }
        k = k + 1;
    }
    None
}

proof fn lemma_primitive_index_stable(t: Seq<char>, k: int, m: int)
    requires
        0 <= k <= m,
        primitive_index(t, k) is Some,
    ensures
        primitive_index(t, m) == primitive_index(t, k),
    decreases m - k,
{
    if m > k {
        lemma_primitive_index_stable(t, k, m - 1);
    }
}

pub fn primitive_poset_hover_text(text: &str) -> (r: Option<String>)
    ensures
        match r {
            Some(h) => primitive_hover_spec(text@) == Some(h@),
            None => primitive_hover_spec(text@) is None,
        },
{
    match find_primitive(text) {
        Some(p) => {
            let name = chars_of(p.name);
            let description = chars_of(p.description);
            let mut out: Vec<char> = Vec::new();
            push_chars(&mut out, "**Primitive poset** `");
            push_range(&mut out, name.as_slice(), 0, name.len());
            push_chars(&mut out, "`\n\n");
            push_range(&mut out, description.as_slice(), 0, description.len());
            push_chars(&mut out, ".");
            assert(name@.subrange(0, name@.len() as int) =~= name@);
            assert(description@.subrange(0, description@.len() as int) =~= description@);
            Some(string_from_chars(out.as_slice()))
        },
        None => None,
    }
}

// ---------------------------------------------------------------------------
// Unit atoms
// ---------------------------------------------------------------------------

/// Names of constructors of poset expressions.
pub open spec fn is_unit_constructor_spec(a: Seq<char>) -> bool {
    a == "product"@ || a == "LowerSet"@ || a == "LowerSets"@ || a == "lower_set"@ || a
        == "lower_sets"@ || a == "UpperSet"@ || a == "UpperSets"@ || a == "upper_set"@ || a
        == "upper_sets"@
}

pub fn is_unit_constructor(atom: &str) -> (r: bool)
    ensures
        r == is_unit_constructor_spec(atom@),
{
    str_eq(atom, "product") || str_eq(atom, "LowerSet") || str_eq(atom, "LowerSets") || str_eq(
        atom,
        "lower_set",
    ) || str_eq(atom, "lower_sets") || str_eq(atom, "UpperSet") || str_eq(atom, "UpperSets")
        || str_eq(atom, "upper_set") || str_eq(atom, "upper_sets")
}

/// Units that need no project poset: the built-in posets and common aliases.
pub open spec fn is_base_unit_spec(a: Seq<char>) -> bool {
    primitive_index(a, 14) is Some || a == "1"@ || a == "dimensionless"@ || a == "unitless"@ || a
        == "$"@ || a == "mg"@ || a == "deg"@ || a == "degree"@ || a == "degrees"@ || a == "°"@ || a
        == "kJ"@ || a == "Wh"@ || a == "kWh"@ || a == "h"@ || a == "hr"@ || a == "hour"@ || a
        == "hours"@ || a == "min"@ || a == "minute"@ || a == "minutes"@
}

pub fn is_base_unit_atom(atom: &str) -> (r: bool)
    ensures
        r == is_base_unit_spec(atom@),
{
    find_primitive(atom).is_some() || str_eq(atom, "1") || str_eq(atom, "dimensionless") || str_eq(
        atom,
        "unitless",
    ) || str_eq(atom, "$") || str_eq(atom, "mg") || str_eq(atom, "deg") || str_eq(atom, "degree")
        || str_eq(atom, "degrees") || str_eq(atom, "°") || str_eq(atom, "kJ") || str_eq(atom, "Wh")
        || str_eq(atom, "kWh") || str_eq(atom, "h") || str_eq(atom, "hr") || str_eq(atom, "hour")
        || str_eq(atom, "hours") || str_eq(atom, "min") || str_eq(atom, "minute") || str_eq(
        atom,
        "minutes",
    )
}

pub open spec fn is_atom_start(c: char) -> bool {
    ('a' <= c && c <= 'z') || ('A' <= c && c <= 'Z') || c == '_'
}

pub open spec fn is_atom_continue(c: char) -> bool {
    ('a' <= c && c <= 'z') || ('A' <= c && c <= 'Z') || ('0' <= c && c <= '9') || c == '_'
}

pub fn is_unit_atom_start(ch: char) -> (r: bool)
    ensures
        r == is_atom_start(ch),
{
    ('a' <= ch && ch <= 'z') || ('A' <= ch && ch <= 'Z') || ch == '_'
}

pub fn is_unit_atom_continue(ch: char) -> (r: bool)
    ensures
        r == is_atom_continue(ch),
{
    ('a' <= ch && ch <= 'z') || ('A' <= ch && ch <= 'Z') || ('0' <= ch && ch <= '9') || ch == '_'
}

/// The text inside `name(...)`.
pub open spec fn constructor_inner_spec(t: Seq<char>, name: Seq<char>) -> Option<Seq<char>> {
    match strip_prefix_spec(t, name) {
        Some(r) => if r.len() >= 2 && r[0] == '(' && r.last() == ')' {
            Some(r.subrange(1, r.len() - 1))
        } else {
            None
        },
        None => None,
    }
}

/// Bracket depth (one counter for all bracket kinds) before index `i`.
pub open spec fn nesting_before(s: Seq<char>, i: int) -> nat
    decreases i,
{
    if i <= 0 {
        0
    } else {
        let d = nesting_before(s, i - 1);
        let c = s[i - 1];
        if c == '(' || c == '[' || c == '{' {
            d + 1
        } else if c == ')' || c == ']' || c == '}' {
            dec(d)
        } else {
            d
        }
    }
}

pub open spec fn is_bracket(c: char) -> bool {
    c == '(' || c == '[' || c == '{' || c == ')' || c == ']' || c == '}'
}

/// Whether `s[i]` is the separator `c` outside every bracket.
pub open spec fn separator_at(s: Seq<char>, i: int, c: char) -> bool {
    0 <= i < s.len() && s[i] == c && !is_bracket(c) && nesting_before(s, i) == 0
}

pub open spec fn part_scan(s: Seq<char>, c: char, i: int) -> (int, Seq<Seq<char>>)
    decreases i,
{
    if i <= 0 {
        (0, Seq::empty())
    } else {
        let (start, parts) = part_scan(s, c, i - 1);
        if separator_at(s, i - 1, c) {
            (i, parts.push(trim(s.subrange(start, i - 1))))
        } else {
            (start, parts)
        }
    }
}

/// The trimmed parts between top-level separators, the last part included
/// even when blank.
pub open spec fn parts_spec(s: Seq<char>, c: char) -> Seq<Seq<char>> {
    let (start, parts) = part_scan(s, c, s.len() as int);
    parts.push(trim(s.subrange(start, s.len() as int)))
}

pub open spec fn first_separator(s: Seq<char>, c: char, i: int) -> Option<int>
    decreases s.len() - i,
{
    if i < 0 || i >= s.len() {
        None
    } else if separator_at(s, i, c) {
        Some(i)
    } else {
        first_separator(s, c, i + 1)
    }
}

pub proof fn lemma_part_scan(s: Seq<char>, c: char, i: int)
    requires
        0 <= i <= s.len(),
    ensures
        0 <= part_scan(s, c, i).0 <= i,
        forall|k: int| 0 <= k < part_scan(s, c, i).1.len() ==> (#[trigger] part_scan(s, c, i).1[k]).len() < s.len(),
    decreases i,
{
    if i > 0 {
        lemma_part_scan(s, c, i - 1);
        let (start, parts) = part_scan(s, c, i - 1);
        if separator_at(s, i - 1, c) {
            lemma_trim_len(s.subrange(start, i - 1));
        }
    }
}

pub proof fn lemma_parts_len(s: Seq<char>, c: char)
    ensures
        forall|k: int| 0 <= k < parts_spec(s, c).len() ==> (#[trigger] parts_spec(s, c)[k]).len() <= s.len(),
{
    lemma_part_scan(s, c, s.len() as int);
    let (start, parts) = part_scan(s, c, s.len() as int);
    lemma_trim_len(s.subrange(start, s.len() as int));
}

pub proof fn lemma_first_separator(s: Seq<char>, c: char, i: int)
    requires
        0 <= i,
    ensures
        first_separator(s, c, i) matches Some(k) ==> i <= k < s.len(),
    decreases s.len() - i,
{
    if i < s.len() && !separator_at(s, i, c) {
        lemma_first_separator(s, c, i + 1);
    }
}

fn split_parts(s: &[char], c: char) -> (r: Vec<Vec<char>>)
    ensures
        crate::text::vecs_view(r@) == parts_spec(s@, c),
{
    let mut parts: Vec<Vec<char>> = Vec::new();
    let mut depth: usize = 0;
    let mut start: usize = 0;
    let mut i: usize = 0;
    while i < s.len()
        invariant
            i <= s@.len(),
            start <= i,
            depth <= i,
            depth == nesting_before(s@, i as int),
            part_scan(s@, c, i as int) == (start as int, crate::text::vecs_view(parts@)),
        decreases s@.len() - i,
    {
        let ch = s[i];
        if ch == '(' || ch == '[' || ch == '{' {
            depth = depth + 1;
        } else if ch == ')' || ch == ']' || ch == '}' {
            depth = if depth > 0 { depth - 1 } else { 0 };
        } else if ch == c && depth == 0 {
            let part = trim_chars(subrange_vec(s, start, i).as_slice());
            assert(crate::text::vecs_view(parts@.push(part)) =~= crate::text::vecs_view(parts@).push(part@));
            parts.push(part);
            start = i + 1;
        }
        i = i + 1;
    }
    let tail = trim_chars(subrange_vec(s, start, s.len()).as_slice());
    assert(crate::text::vecs_view(parts@.push(tail)) =~= crate::text::vecs_view(parts@).push(tail@));
    parts.push(tail);
    parts
}

fn first_separator_exec(s: &[char], c: char) -> (r: Option<usize>)
    ensures
        match r {
            Some(k) => first_separator(s@, c, 0) == Some(k as int),
            None => first_separator(s@, c, 0) is None,
        },
{
    let mut depth: usize = 0;
    let mut i: usize = 0;
    while i < s.len()
        invariant
            i <= s@.len(),
            depth <= i,
            depth == nesting_before(s@, i as int),
            first_separator(s@, c, 0) == first_separator(s@, c, i as int),
        decreases s@.len() - i,
    {
        let ch = s[i];
        if ch == '(' || ch == '[' || ch == '{' {
            depth = depth + 1;
        } else if ch == ')' || ch == ']' || ch == '}' {
            depth = if depth > 0 { depth - 1 } else { 0 };
        } else if ch == c && depth == 0 {
            return Some(i);
        }
        i = i + 1;
    }
    None
}

/// An atom of a unit: a name, and whether it was written as a named
/// poset (after a backtick).
#[derive(Debug, PartialEq, Eq)]
pub struct UnitAtom {
    pub name: String,
    pub named: bool,
}

pub open spec fn atoms_view(v: Seq<UnitAtom>) -> Seq<(Seq<char>, bool)> {
    v.map_values(|a: UnitAtom| (a.name@, a.named))
}

/// End of the run of atom characters starting at `i`.
pub open spec fn atom_run_end(t: Seq<char>, i: int) -> int
    decreases t.len() - i,
{
    if i < 0 || i >= t.len() || !is_atom_continue(t[i]) {
        i
    } else {
        atom_run_end(t, i + 1)
    }
}

pub proof fn lemma_atom_run_end(t: Seq<char>, i: int)
    requires
        0 <= i <= t.len(),
    ensures
        i <= atom_run_end(t, i) <= t.len(),
    decreases t.len() - i,
{
    if i < t.len() && is_atom_continue(t[i]) {
        lemma_atom_run_end(t, i + 1);
    }
}

/// The atoms of a unit text from index `i`: backtick names, unit names
/// (constructors aside), and the symbols `$` and `°`.
pub open spec fn scan_atoms(t: Seq<char>, i: int) -> Seq<(Seq<char>, bool)>
    decreases t.len() - i,
{
    if i < 0 || i >= t.len() {
        Seq::empty()
    } else if t[i] == '`' {
        proof {
            lemma_atom_run_end(t, i + 1);
        }
        let e = atom_run_end(t, i + 1);
        let a = t.subrange(i + 1, e);
        (if a.len() > 0 {
            seq![(a, true)]
        } else {
            Seq::empty()
        }) + scan_atoms(t, e)
    } else if is_atom_start(t[i]) {
        proof {
            lemma_atom_run_end(t, i + 1);
        }
        let e = atom_run_end(t, i + 1);
        let a = t.subrange(i, e);
        (if !is_unit_constructor_spec(a) {
            seq![(a, false)]
        } else {
            Seq::empty()
        }) + scan_atoms(t, e)
    } else if t[i] == '$' || t[i] == '°' {
        seq![(seq![t[i]], false)] + scan_atoms(t, i + 1)
    } else {
        scan_atoms(t, i + 1)
    }
}

/// The atoms of a unit text: for `product(name: poset, ...)` those of each
/// field's poset, in order; otherwise those found scanning the trimmed text.
pub open spec fn unit_atoms_spec(text: Seq<char>) -> Seq<(Seq<char>, bool)>
    decreases text.len(), 1int, 0int,
{
    let t = trim(text);
    match constructor_inner_spec(t, "product"@) {
        Some(inner) => {
            proof {
                lemma_trim_len(text);
                reveal_strlit("product");
            }
            field_atoms(inner, parts_spec(inner, ',').len() as int)
        },
        None => scan_atoms(t, 0),
    }
}

/// The atoms of the first `k` fields of a product.
pub open spec fn field_atoms(inner: Seq<char>, k: int) -> Seq<(Seq<char>, bool)>
    decreases inner.len(), 0int, k,
{
    let parts = parts_spec(inner, ',');
    if k <= 0 || k > parts.len() {
        Seq::empty()
    } else {
        let part = parts[k - 1];
        let prev = field_atoms(inner, k - 1);
        match first_separator(part, ':', 0) {
            Some(colon) => {
                proof {
                    lemma_parts_len(inner, ',');
                    lemma_first_separator(part, ':', 0);
                    lemma_trim_len(part.subrange(colon + 1, part.len() as int));
                }
                prev + unit_atoms_spec(trim(part.subrange(colon + 1, part.len() as int)))
            },
            None => prev,
        }
    }
}

fn constructor_inner(text: &[char], name: &str) -> (r: Option<Vec<char>>)
    ensures
        match r {
            Some(v) => constructor_inner_spec(text@, name@) == Some(v@),
            None => constructor_inner_spec(text@, name@) is None,
        },
{
    match crate::text::strip_prefix_lit(text, name) {
        Some(rest) => {
            if rest.len() >= 2 && rest[0] == '(' && rest[rest.len() - 1] == ')' {
                Some(subrange_vec(rest.as_slice(), 1, rest.len() - 1))
            } else {
                None
            }
        },
        None => None,
    }
}

fn push_atom(atoms: &mut Vec<UnitAtom>, name: Vec<char>, named: bool)
    ensures
        atoms_view(final(atoms)@) == atoms_view(old(atoms)@).push((name@, named)),
{
    let atom = UnitAtom { name: string_from_chars(name.as_slice()), named };
    assert(atoms_view(atoms@.push(atom)) =~= atoms_view(atoms@).push((name@, named)));
    atoms.push(atom);
}

fn scan_atoms_exec(t: &[char]) -> (r: Vec<UnitAtom>)
    ensures
        atoms_view(r@) == scan_atoms(t@, 0),
{
    let mut atoms: Vec<UnitAtom> = Vec::new();
    let mut i: usize = 0;
    while i < t.len()
        invariant
            i <= t@.len(),
            scan_atoms(t@, 0) == atoms_view(atoms@) + scan_atoms(t@, i as int),
        decreases t@.len() - i,
    {
        let ch = t[i];
        let ghost before = atoms_view(atoms@);
        if ch == '`' {
            let mut e = i + 1;
            while e < t.len() && is_unit_atom_continue(t[e])
                invariant
                    i + 1 <= e <= t@.len(),
                    atom_run_end(t@, i + 1) == atom_run_end(t@, e as int),
                decreases t@.len() - e,
            {
                e = e + 1;
            }
            let name = subrange_vec(t, i + 1, e);
            if name.len() > 0 {
                push_atom(&mut atoms, name, true);
            }
            proof {
                assert(atoms_view(atoms@) + scan_atoms(t@, e as int) =~= before + scan_atoms(t@, i as int));
            }
            i = e;
        } else if is_unit_atom_start(ch) {
            let mut e = i + 1;
            while e < t.len() && is_unit_atom_continue(t[e])
                invariant
                    i + 1 <= e <= t@.len(),
                    atom_run_end(t@, i + 1) == atom_run_end(t@, e as int),
                decreases t@.len() - e,
            {
                e = e + 1;
            }
            let name = subrange_vec(t, i, e);
            let text = string_from_chars(name.as_slice());
            if !is_unit_constructor(text.as_str()) {
                push_atom(&mut atoms, name, false);
            }
            proof {
                assert(atoms_view(atoms@) + scan_atoms(t@, e as int) =~= before + scan_atoms(t@, i as int));
            }
            i = e;
        } else if ch == '$' || ch == '°' {
            let name = subrange_vec(t, i, i + 1);
            assert(name@ =~= seq![ch]);
            push_atom(&mut atoms, name, false);
            proof {
                assert(atoms_view(atoms@) + scan_atoms(t@, i + 1) =~= before + scan_atoms(t@, i as int));
            }
            i = i + 1;
        } else {
            i = i + 1;
        }
    }
    assert(atoms_view(atoms@) + scan_atoms(t@, i as int) =~= atoms_view(atoms@));
    atoms
}

fn unit_atoms_chars(text: &[char]) -> (r: Vec<UnitAtom>)
    ensures
        atoms_view(r@) == unit_atoms_spec(text@),
    decreases text@.len(),
{
    proof {
        reveal_strlit("product");
        lemma_trim_len(text@);
    }
    let t = trim_chars(text);
    match constructor_inner(t.as_slice(), "product") {
        Some(inner) => {
            let parts = split_parts(inner.as_slice(), ',');
            let ghost pv = crate::text::vecs_view(parts@);
            proof {
                lemma_parts_len(inner@, ',');
            }
            let mut atoms: Vec<UnitAtom> = Vec::new();
            let mut k: usize = 0;
            assert(atoms_view(atoms@) =~= field_atoms(inner@, 0));
            while k < parts.len()
                invariant
                    k <= parts@.len(),
                    pv == crate::text::vecs_view(parts@),
                    pv == parts_spec(inner@, ','),
                    inner@.len() < text@.len(),
                    forall|j: int| 0 <= j < pv.len() ==> (#[trigger] pv[j]).len() <= inner@.len(),
                    atoms_view(atoms@) == field_atoms(inner@, k as int),
                decreases parts@.len() - k,
            {
                let part = parts[k].as_slice();
                assert(part@ == pv[k as int]);
                match first_separator_exec(part, ':') {
                    Some(colon) => {
                        proof {
                            lemma_first_separator(part@, ':', 0);
                            lemma_trim_len(part@.subrange(colon + 1, part@.len() as int));
                        }
                        let rest = subrange_vec(part, colon + 1, part.len());
                        let poset = trim_chars(rest.as_slice());
                        let more = unit_atoms_chars(poset.as_slice());
                        let ghost a0 = atoms_view(atoms@);
                        let mut more = more;
                        let ghost m0 = more@;
                        atoms.append(&mut more);
                        assert(atoms_view(atoms@) =~= a0 + atoms_view(m0));
                    },
                    None => {},
                }
                k = k + 1;
            }
            atoms
        },
        None => scan_atoms_exec(t.as_slice()),
    }
}

/// The atoms of a unit text.
pub fn unit_atoms(text: &str) -> (r: Vec<UnitAtom>)
    ensures
        atoms_view(r@) == unit_atoms_spec(text@),
{
    let chars = chars_of(text);
    unit_atoms_chars(chars.as_slice())
}

// ---------------------------------------------------------------------------
// Unit and poset texts
// ---------------------------------------------------------------------------

/// The text of a unit expression: factors joined by `*`, quotients with
/// `/`, powers with `^`, and `dimensionless` for one.
pub open spec fn unit_text_spec(u: UnitView) -> Seq<char>
    decreases u,
{
    match u {
        UnitView::One => "dimensionless"@,
        UnitView::Symbol(s) => s,
        UnitView::Product(parts) => join(units_text_spec(parts), "*"@),
        UnitView::Quotient { numerator, denominator } => unit_text_spec(*numerator) + "/"@
            + unit_text_spec(*denominator),
        UnitView::Power { base, exponent } => unit_text_spec(*base) + "^"@ + exponent,
        UnitView::Raw(r) => r,
    }
}

pub open spec fn units_text_spec(parts: Seq<UnitView>) -> Seq<Seq<char>>
    decreases parts,
{
    if parts.len() == 0 {
        Seq::empty()
    } else {
        seq![unit_text_spec(parts[0])] + units_text_spec(parts.subrange(1, parts.len() as int))
    }
}

proof fn lemma_units_text(parts: Seq<UnitView>)
    ensures
        units_text_spec(parts).len() == parts.len(),
        forall|i: int| 0 <= i < parts.len() ==> #[trigger] units_text_spec(parts)[i] == unit_text_spec(parts[i]),
    decreases parts.len(),
{
    if parts.len() > 0 {
        lemma_units_text(parts.subrange(1, parts.len() as int));
        assert forall|i: int| 0 <= i < parts.len() implies #[trigger] units_text_spec(parts)[i] == unit_text_spec(parts[i]) by {
            if i > 0 {
                assert(parts.subrange(1, parts.len() as int)[i - 1] == parts[i]);
            }
        }
    }
}

pub fn unit_expression_text(unit: &UnitExpression) -> (r: String)
    ensures
        r@ == unit_text_spec(unit_view(*unit)),
    decreases unit,
{
    match unit {
        UnitExpression::One => "dimensionless".to_owned(),
        UnitExpression::Symbol(symbol) => symbol.clone(),
        UnitExpression::Product(parts) => {
            let ghost pv = units_view(parts@);
            proof {
                lemma_units_view(parts@);
                lemma_units_text(pv);
            }
            let mut texts: Vec<Vec<char>> = Vec::new();
            let mut i: usize = 0;
            while i < parts.len()
                invariant
                    i <= parts@.len(),
                    *unit is Product,
                    unit->Product_0 == *parts,
                    pv == units_view(parts@),
                    pv.len() == parts@.len(),
                    forall|j: int| 0 <= j < parts@.len() ==> #[trigger] pv[j] == unit_view(parts@[j]),
                    units_text_spec(pv).len() == pv.len(),
                    forall|j: int| 0 <= j < pv.len() ==> #[trigger] units_text_spec(pv)[j] == unit_text_spec(pv[j]),
                    crate::text::vecs_view(texts@) == units_text_spec(pv).take(i as int),
                decreases parts@.len() - i,
            {
                proof {
                    assert(decreases_to!(*unit => unit->Product_0@));
                    assert(decreases_to!(unit->Product_0@ => unit->Product_0@[i as int]));
                }
                let text = unit_expression_text(&parts[i]);
                let chars = chars_of(text.as_str());
                proof {
                    assert(crate::text::vecs_view(texts@.push(chars)) =~= crate::text::vecs_view(texts@).push(chars@));
                    assert(units_text_spec(pv).take(i + 1) =~= units_text_spec(pv).take(i as int).push(units_text_spec(pv)[i as int]));
                }
                texts.push(chars);
                i = i + 1;
            }
            assert(units_text_spec(pv).take(parts@.len() as int) =~= units_text_spec(pv));
            let mut out: Vec<char> = Vec::new();
            join_labels(&texts, "*", &mut out);
            assert(out@ =~= join(units_text_spec(pv), "*"@));
            string_from_chars(out.as_slice())
        },
        UnitExpression::Quotient { numerator, denominator } => {
            let n = unit_expression_text(numerator);
            let d = unit_expression_text(denominator);
            let nc = chars_of(n.as_str());
            let dc = chars_of(d.as_str());
            let mut out: Vec<char> = Vec::new();
            push_range(&mut out, nc.as_slice(), 0, nc.len());
            push_chars(&mut out, "/");
            push_range(&mut out, dc.as_slice(), 0, dc.len());
            assert(nc@.subrange(0, nc@.len() as int) =~= nc@);
            assert(dc@.subrange(0, dc@.len() as int) =~= dc@);
            string_from_chars(out.as_slice())
        },
        UnitExpression::Power { base, exponent } => {
            let b = unit_expression_text(base);
            let bc = chars_of(b.as_str());
            let ec = chars_of(exponent.as_str());
            let mut out: Vec<char> = Vec::new();
            push_range(&mut out, bc.as_slice(), 0, bc.len());
            push_chars(&mut out, "^");
            push_range(&mut out, ec.as_slice(), 0, ec.len());
            assert(bc@.subrange(0, bc@.len() as int) =~= bc@);
            assert(ec@.subrange(0, ec@.len() as int) =~= ec@);
            string_from_chars(out.as_slice())
        },
        UnitExpression::Raw(raw) => raw.clone(),
    }
}

/// The unit text of a poset: products have none, named posets keep their
/// backtick.
pub open spec fn poset_unit_spec(p: PosetView) -> Option<Seq<char>> {
    match p {
        PosetView::Unit(u) => Some(unit_text_spec(u)),
        PosetView::Builtin(n) => Some(n),
        PosetView::Named(n) => Some("`"@ + n),
        PosetView::Raw(r) => Some(r),
        PosetView::Product(_) => None,
    }
}

pub fn poset_unit_text(poset: &PosetRef) -> (r: Option<String>)
    ensures
        match r {
            Some(t) => poset_unit_spec(poset_view(*poset)) == Some(t@),
            None => poset_unit_spec(poset_view(*poset)) is None,
        },
{
    match poset {
        PosetRef::Unit(unit) => Some(unit_expression_text(unit)),
        PosetRef::Builtin(name) => Some(name.clone()),
        PosetRef::Named(name) => {
            let nc = chars_of(name.as_str());
            let mut out: Vec<char> = Vec::new();
            push_chars(&mut out, "`");
            push_range(&mut out, nc.as_slice(), 0, nc.len());
            assert(nc@.subrange(0, nc@.len() as int) =~= nc@);
            Some(string_from_chars(out.as_slice()))
        },
        PosetRef::Raw(raw) => Some(raw.clone()),
        PosetRef::Product(_) => None,
    }
}

// ---------------------------------------------------------------------------
// Token helpers
// ---------------------------------------------------------------------------

pub open spec fn in_range(t: TokenView, r: TextRange) -> bool {
    t.range.start >= r.start && t.range.end <= r.end
}

/// The non-trivia tokens that lie within a range.
pub open spec fn tokens_within(ts: Seq<TokenView>, r: TextRange) -> Seq<TokenView>
    decreases ts.len(),
{
    if ts.len() == 0 {
        Seq::empty()
    } else {
        let p = tokens_within(ts.drop_last(), r);
        let t = ts.last();
        if !is_trivia_spec(t.kind) && in_range(t, r) {
            p.push(t)
        } else {
            p
        }
    }
}

pub(crate) fn copy_token(t: &Token) -> (r: Token)
    ensures
        r@ == t@,
{
    Token { kind: t.kind, text: t.text.clone(), range: t.range }
}

pub(crate) fn statement_tokens(tokens: &[Token], range: TextRange) -> (r: Vec<Token>)
    ensures
        tokens_view(r@) == tokens_within(tokens_view(tokens@), range),
{
    let ghost tv = tokens_view(tokens@);
    let mut out: Vec<Token> = Vec::new();
    let mut i: usize = 0;
    while i < tokens.len()
        invariant
            i <= tokens@.len(),
            tv == tokens_view(tokens@),
            tokens_view(out@) == tokens_within(tv.take(i as int), range),
        decreases tokens@.len() - i,
    {
        let t = &tokens[i];
        proof {
            assert(tv.take(i + 1).drop_last() =~= tv.take(i as int));
            assert(tv.take(i + 1).last() == t@);
        }
        if !is_trivia(t.kind) && t.range.start >= range.start && t.range.end <= range.end {
            let c = copy_token(t);
            assert(tokens_view(out@.push(c)) =~= tokens_view(out@).push(c@));
            out.push(c);
        }
        i = i + 1;
    }
    assert(tv.take(tokens@.len() as int) =~= tv);
    out
}

/// Index of the first token at or after `i` whose text is `lit`.
pub open spec fn first_text_from(ts: Seq<TokenView>, lit: Seq<char>, i: int) -> Option<int>
    decreases ts.len() - i,
{
    if i < 0 || i >= ts.len() {
        None
    } else if ts[i].text == lit {
        Some(i)
    } else {
        first_text_from(ts, lit, i + 1)
    }
}

pub proof fn lemma_first_text_from(ts: Seq<TokenView>, lit: Seq<char>, i: int)
    requires
        0 <= i,
    ensures
        first_text_from(ts, lit, i) matches Some(k) ==> i <= k < ts.len() && ts[k].text == lit,
    decreases ts.len() - i,
{
    if i < ts.len() && ts[i].text != lit {
        lemma_first_text_from(ts, lit, i + 1);
    }
}

pub(crate) fn first_text_exec(ts: &[Token], lit: &str, i: usize) -> (r: Option<usize>)
    ensures
        match r {
            Some(k) => k < ts.len() && first_text_from(tokens_view(ts@), lit@, i as int) == Some(
                k as int,
            ),
            None => first_text_from(tokens_view(ts@), lit@, i as int) is None,
        },
{
    let ghost tv = tokens_view(ts@);
    let mut k = i;
    while k < ts.len()
        invariant
            i <= k,
            tv == tokens_view(ts@),
            first_text_from(tv, lit@, i as int) == first_text_from(tv, lit@, k as int),
        decreases ts@.len() - k,
    {
        assert(tv[k as int] == ts@[k as int]@);
        if text_is(&ts[k], lit) {
            return Some(k);
        }
        k = k + 1;
    }
    None
}

/// Index of the token closing the bracket opened at `open`: `open_text`
/// deepens, `close_text` shallows, and the first return to depth zero closes.
pub open spec fn matching_close_from(
    ts: Seq<TokenView>,
    open: Seq<char>,
    close: Seq<char>,
    i: int,
    depth: nat,
) -> Option<int>
    decreases ts.len() - i,
{
    if i < 0 || i >= ts.len() {
        None
    } else if ts[i].text == open {
        matching_close_from(ts, open, close, i + 1, depth + 1)
    } else if ts[i].text == close {
        if dec(depth) == 0 {
            Some(i)
        } else {
            matching_close_from(ts, open, close, i + 1, dec(depth))
        }
    } else {
        matching_close_from(ts, open, close, i + 1, depth)
    }
}

pub proof fn lemma_matching_close(ts: Seq<TokenView>, open: Seq<char>, close: Seq<char>, i: int, d: nat)
    requires
        0 <= i,
    ensures
        matching_close_from(ts, open, close, i, d) matches Some(k) ==> i <= k < ts.len(),
    decreases ts.len() - i,
{
    if i < ts.len() {
        if ts[i].text == open {
            lemma_matching_close(ts, open, close, i + 1, d + 1);
        } else if ts[i].text == close {
            if dec(d) != 0 {
                lemma_matching_close(ts, open, close, i + 1, dec(d));
            }
        } else {
            lemma_matching_close(ts, open, close, i + 1, d);
        }
    }
}

pub(crate) fn matching_close(tokens: &[Token], open_index: usize, open_text: &str, close_text: &str) -> (r:
    Option<usize>)
    ensures
        match r {
            Some(k) => matching_close_from(tokens_view(tokens@), open_text@, close_text@, open_index as int, 0) == Some(k as int),
            None => matching_close_from(tokens_view(tokens@), open_text@, close_text@, open_index as int, 0) is None,
        },
{
    let ghost tv = tokens_view(tokens@);
    let mut depth: usize = 0;
    let mut i = open_index;
    while i < tokens.len()
        invariant
            open_index <= i,
            depth <= i - open_index,
            tv == tokens_view(tokens@),
            matching_close_from(tv, open_text@, close_text@, open_index as int, 0) == matching_close_from(
                tv,
                open_text@,
                close_text@,
                i as int,
                depth as nat,
            ),
        decreases tokens@.len() - i,
    {
        assert(tv[i as int] == tokens@[i as int]@);
        if text_is(&tokens[i], open_text) {
            depth = depth + 1;
        } else if text_is(&tokens[i], close_text) {
            depth = if depth > 0 { depth - 1 } else { 0 };
            if depth == 0 {
                return Some(i);
            }
        }
        i = i + 1;
    }
    None
}

// ---------------------------------------------------------------------------
// Ranges in a text
// ---------------------------------------------------------------------------

/// The characters of a byte range, both ends moved back to character
/// boundaries (nothing when they cross).
pub open spec fn range_chars(s: Seq<char>, r: TextRange) -> Seq<char> {
    let a = clamp_char(s, r.start as int);
    let e = clamp_char(s, r.end as int);
    if a <= e {
        s.subrange(a, e)
    } else {
        Seq::empty()
    }
}

/// A byte range without its leading and trailing whitespace; a blank range
/// shrinks to its end.
pub open spec fn trim_range_spec(s: Seq<char>, r: TextRange) -> TextRange {
    let a = clamp_char(s, r.start as int);
    let e = clamp_char(s, r.end as int);
    let t = range_chars(s, r);
    let lead = skip_ws_from(t, 0);
    let trail = skip_ws_back(t, t.len() as int);
    if lead >= t.len() {
        TextRange { start: byte_at(s, a + t.len()) as usize, end: byte_at(s, a + t.len()) as usize }
    } else {
        TextRange { start: byte_at(s, a + lead) as usize, end: byte_at(s, a + trail) as usize }
    }
}

pub(crate) fn trim_range(index: &LineIndex, range: TextRange) -> (r: TextRange)
    requires
        index.wf(),
    ensures
        r == trim_range_spec(index@, range),
{
    let ghost s = index@;
    let a = index.char_index(range.start);
    let e = index.char_index(range.end);
    let chars = index.text_chars();
    let hi = if a <= e { e } else { a };
    let (x, y) = trim_bounds(chars.as_slice(), a, hi);
    proof {
        let t = range_chars(s, range);
        assert(t =~= s.subrange(a as int, hi as int));
        lemma_skip_ws_from(t, 0);
        lemma_skip_ws_back(t, t.len() as int);
    }
    let ghost t = range_chars(s, range);
    assert(t.len() == hi - a);
    if x == y {
        let b = index.byte_offset_of_char(hi);
        proof {
            lemma_trim_shape(t);
            assert(chars@ == s);
            assert(t == s.subrange(a as int, hi as int));
            assert(s.subrange(x as int, y as int) == trim(t));
            if skip_ws_from(t, 0) < t.len() {
                assert(trim(t).len() > 0);
                assert(x < y);
            }
            assert(skip_ws_from(t, 0) >= t.len());
            assert(a + t.len() == hi);
            assert(trim_range_spec(s, range) == TextRange { start: b, end: b });
        }
        TextRange { start: b, end: b }
    } else {
        proof {
            lemma_trim_shape(t);
            assert(x == a + skip_ws_from(t, 0));
            assert(y == a + skip_ws_back(t, t.len() as int));
            assert(skip_ws_from(t, 0) < t.len());
        }
        let rs = index.byte_offset_of_char(x);
        let re = index.byte_offset_of_char(y);
        assert(trim_range_spec(s, range) == TextRange { start: rs, end: re });
        TextRange { start: rs, end: re }
    }
}

proof fn lemma_trim_shape(t: Seq<char>)
    ensures
        skip_ws_from(t, 0) < t.len() ==> trim(t) == t.subrange(skip_ws_from(t, 0), skip_ws_back(t, t.len() as int))
            && skip_ws_from(t, 0) < skip_ws_back(t, t.len() as int),
        skip_ws_from(t, 0) >= t.len() ==> trim(t).len() == 0,
{
    lemma_skip_ws_from(t, 0);
    lemma_skip_ws_back(t, t.len() as int);
    if skip_ws_from(t, 0) < t.len() {
        let k = skip_ws_from(t, 0);
        assert(!unicode_whitespace(t[k]));
        if skip_ws_back(t, t.len() as int) <= k {
            assert(unicode_whitespace(t[k]));
        }
    } else {
        if skip_ws_back(t, t.len() as int) > 0 {
            assert(!unicode_whitespace(t[skip_ws_back(t, t.len() as int) - 1]));
            assert(unicode_whitespace(t[skip_ws_back(t, t.len() as int) - 1]));
        }
    }
}

pub(crate) fn range_text(index: &LineIndex, range: TextRange) -> (r: String)
    requires
        index.wf(),
    ensures
        r@ == range_chars(index@, range),
{
    let a = index.char_index(range.start);
    let e = index.char_index(range.end);
    let chars = index.text_chars();
    if a <= e {
        string_from_range(chars.as_slice(), a, e)
    } else {
        String::new()
    }
}

// ---------------------------------------------------------------------------
// Document symbols
// ---------------------------------------------------------------------------

/// A text of the document with its range.
#[derive(Debug, PartialEq, Eq)]
pub struct SymbolText {
    pub text: String,
    pub range: TextRange,
}

pub struct SymbolTextView {
    pub text: Seq<char>,
    pub range: TextRange,
}

impl View for SymbolText {
    type V = SymbolTextView;

    open spec fn view(&self) -> SymbolTextView {
        SymbolTextView { text: self.text@, range: self.range }
    }
}

pub open spec fn opt_symbol_text(o: Option<SymbolText>) -> Option<SymbolTextView> {
    match o {
        Some(t) => Some(t@),
        None => None,
    }
}

/// A declared port.
#[derive(Debug, PartialEq, Eq)]
pub struct PortSymbol {
    pub name: String,
    pub name_range: TextRange,
    pub unit: Option<SymbolText>,
    pub poset: Option<PosetRef>,
    pub declaration_range: TextRange,
}

pub struct PortSymbolView {
    pub name: Seq<char>,
    pub name_range: TextRange,
    pub unit: Option<SymbolTextView>,
    pub poset: Option<PosetView>,
    pub declaration_range: TextRange,
}

pub open spec fn opt_poset(o: Option<PosetRef>) -> Option<PosetView> {
    match o {
        Some(p) => Some(poset_view(p)),
        None => None,
    }
}

impl View for PortSymbol {
    type V = PortSymbolView;

    open spec fn view(&self) -> PortSymbolView {
        PortSymbolView {
            name: self.name@,
            name_range: self.name_range,
            unit: opt_symbol_text(self.unit),
            poset: opt_poset(self.poset),
            declaration_range: self.declaration_range,
        }
    }
}

/// An assignment `name = expression`.
#[derive(Debug, PartialEq, Eq)]
pub struct AssignmentSymbol {
    pub name: String,
    pub name_range: TextRange,
    pub unit: Option<SymbolText>,
    pub expression_range: TextRange,
    pub declaration_range: TextRange,
}

pub struct AssignmentSymbolView {
    pub name: Seq<char>,
    pub name_range: TextRange,
    pub unit: Option<SymbolTextView>,
    pub expression_range: TextRange,
    pub declaration_range: TextRange,
}

impl View for AssignmentSymbol {
    type V = AssignmentSymbolView;

    open spec fn view(&self) -> AssignmentSymbolView {
        AssignmentSymbolView {
            name: self.name@,
            name_range: self.name_range,
            unit: opt_symbol_text(self.unit),
            expression_range: self.expression_range,
            declaration_range: self.declaration_range,
        }
    }
}

/// A backtick reference to a model.
#[derive(Debug, PartialEq, Eq)]
pub struct ModelReference {
    pub name: String,
    pub name_range: TextRange,
    pub reference_range: TextRange,
}

pub struct ModelReferenceView {
    pub name: Seq<char>,
    pub name_range: TextRange,
    pub reference_range: TextRange,
}

impl View for ModelReference {
    type V = ModelReferenceView;

    open spec fn view(&self) -> ModelReferenceView {
        ModelReferenceView { name: self.name@, name_range: self.name_range, reference_range: self.reference_range }
    }
}

pub open spec fn opt_model_reference(o: Option<ModelReference>) -> Option<ModelReferenceView> {
    match o {
        Some(r) => Some(r@),
        None => None,
    }
}

/// A local instance bound to a model.
#[derive(Debug, PartialEq, Eq)]
pub struct InstanceBinding {
    pub name: String,
    pub name_range: TextRange,
    pub model: Option<ModelReference>,
    pub declaration_range: TextRange,
    /// Whether the instance specializes a template (`instance specialize
    /// [...] `Template`), so that its model is a template.
    pub specializes_template: bool,
}

pub struct InstanceBindingView {
    pub name: Seq<char>,
    pub name_range: TextRange,
    pub model: Option<ModelReferenceView>,
    pub declaration_range: TextRange,
    pub specializes_template: bool,
}

impl View for InstanceBinding {
    type V = InstanceBindingView;

    open spec fn view(&self) -> InstanceBindingView {
        InstanceBindingView {
            name: self.name@,
            name_range: self.name_range,
            model: opt_model_reference(self.model),
            declaration_range: self.declaration_range,
            specializes_template: self.specializes_template,
        }
    }
}

/// A `resource("...")` binding.
#[derive(Debug, PartialEq, Eq)]
pub struct ResourceBinding {
    pub path: String,
    pub path_range: TextRange,
    pub expression_range: TextRange,
    pub declaration_range: TextRange,
}

pub struct ResourceBindingView {
    pub path: Seq<char>,
    pub path_range: TextRange,
    pub expression_range: TextRange,
    pub declaration_range: TextRange,
}

impl View for ResourceBinding {
    type V = ResourceBindingView;

    open spec fn view(&self) -> ResourceBindingView {
        ResourceBindingView {
            path: self.path@,
            path_range: self.path_range,
            expression_range: self.expression_range,
            declaration_range: self.declaration_range,
        }
    }
}

/// A unit written in a declaration.
#[derive(Debug, PartialEq, Eq)]
pub struct DeclaredUnit {
    pub name: String,
    pub range: TextRange,
    pub declaration_range: TextRange,
}

pub struct DeclaredUnitView {
    pub name: Seq<char>,
    pub range: TextRange,
    pub declaration_range: TextRange,
}

impl View for DeclaredUnit {
    type V = DeclaredUnitView;

    open spec fn view(&self) -> DeclaredUnitView {
        DeclaredUnitView { name: self.name@, range: self.range, declaration_range: self.declaration_range }
    }
}

/// The two sides and the operator of a relation.
#[derive(Clone, Copy, Debug, PartialEq, Eq, Structural)]
pub struct RelationConstraint {
    pub left_range: TextRange,
    pub relation_range: TextRange,
    pub right_range: TextRange,
    pub statement_range: TextRange,
}

pub open spec fn views<T: View>(s: Seq<T>) -> Seq<T::V> {
    s.map_values(|x: T| x@)
}

/// An import: the library it names (`from library <lib> import ...`) and
/// where the names it imports stand.
#[derive(Debug, PartialEq, Eq)]
pub struct ImportSymbol {
    pub library_range: Option<TextRange>,
    pub imported_name_ranges: Vec<TextRange>,
}

pub struct ImportSymbolView {
    pub library_range: Option<TextRange>,
    pub imported_name_ranges: Seq<TextRange>,
}

impl View for ImportSymbol {
    type V = ImportSymbolView;

    open spec fn view(&self) -> ImportSymbolView {
        ImportSymbolView { library_range: self.library_range, imported_name_ranges: self.imported_name_ranges@ }
    }
}

/// The symbols of one document.
#[derive(Debug, PartialEq, Eq)]
pub struct DocumentSymbols {
    pub uri: String,
    pub source: String,
    pub kind: Option<crate::syntax::DocumentKind>,
    pub definition_range: TextRange,
    pub provides: Vec<PortSymbol>,
    pub requires: Vec<PortSymbol>,
    pub assignments: Vec<AssignmentSymbol>,
    pub instances: Vec<InstanceBinding>,
    pub model_references: Vec<ModelReference>,
    pub resource_bindings: Vec<ResourceBinding>,
    pub declared_units: Vec<DeclaredUnit>,
    pub relations: Vec<RelationConstraint>,
    /// In a `specialize` document, the template it instantiates.
    pub specialize_target: Option<ModelReference>,
    pub imports: Vec<ImportSymbol>,
}

#[verifier::ext_equal]
pub struct DocumentSymbolsView {
    pub uri: Seq<char>,
    pub source: Seq<char>,
    pub kind: Option<crate::syntax::DocumentKind>,
    pub definition_range: TextRange,
    pub provides: Seq<PortSymbolView>,
    pub requires: Seq<PortSymbolView>,
    pub assignments: Seq<AssignmentSymbolView>,
    pub instances: Seq<InstanceBindingView>,
    pub model_references: Seq<ModelReferenceView>,
    pub resource_bindings: Seq<ResourceBindingView>,
    pub declared_units: Seq<DeclaredUnitView>,
    pub relations: Seq<RelationConstraint>,
    pub specialize_target: Option<ModelReferenceView>,
    pub imports: Seq<ImportSymbolView>,
}

impl View for DocumentSymbols {
    type V = DocumentSymbolsView;

    open spec fn view(&self) -> DocumentSymbolsView {
        DocumentSymbolsView {
            uri: self.uri@,
            source: self.source@,
            kind: self.kind,
            definition_range: self.definition_range,
            provides: views(self.provides@),
            requires: views(self.requires@),
            assignments: views(self.assignments@),
            instances: views(self.instances@),
            model_references: views(self.model_references@),
            resource_bindings: views(self.resource_bindings@),
            declared_units: views(self.declared_units@),
            relations: self.relations@,
            specialize_target: opt_model_reference(self.specialize_target),
            imports: views(self.imports@),
        }
    }
}

pub proof fn lemma_views_push<T: View>(s: Seq<T>, x: T)
    ensures
        views(s.push(x)) == views(s).push(x@),
{
    assert(views(s.push(x)) =~= views(s).push(x@));
}

pub proof fn lemma_views_index<T: View>(s: Seq<T>, i: int)
    requires
        0 <= i < s.len(),
    ensures
        views(s).len() == s.len(),
        views(s)[i] == s[i]@,
{
}

// ---------------------------------------------------------------------------
// Declarations in statements
// ---------------------------------------------------------------------------

pub open spec fn is_symbol_spec(t: TokenView) -> bool {
    t.kind == TokenKind::Ident || t.kind == TokenKind::Keyword
}

pub(crate) fn is_symbol_name(t: &Token) -> (r: bool)
    ensures
        r == is_symbol_spec(t@),
{
    t.kind == TokenKind::Ident || t.kind == TokenKind::Keyword
}

/// The last name of the dotted path of names that starts at `j`, as in
/// `library.model`.
pub open spec fn dotted_end(ts: Seq<TokenView>, j: int) -> int
    decreases ts.len() - j,
{
    if 0 <= j && j + 2 < ts.len() && ts[j + 1].text == "."@ && is_symbol_spec(ts[j + 2]) {
        dotted_end(ts, j + 2)
    } else {
        j
    }
}

pub proof fn lemma_dotted_end(ts: Seq<TokenView>, j: int)
    requires
        0 <= j < ts.len(),
        is_symbol_spec(ts[j]),
    ensures
        j <= dotted_end(ts, j) < ts.len(),
        is_symbol_spec(ts[dotted_end(ts, j)]),
    decreases ts.len() - j,
{
    if j + 2 < ts.len() && ts[j + 1].text == "."@ && is_symbol_spec(ts[j + 2]) {
        lemma_dotted_end(ts, j + 2);
    }
}

/// The reference starting at the backtick `ts[b]`: the model named after it,
/// the last name where a dotted path such as `library.model` follows.
pub open spec fn model_reference_at_spec(ts: Seq<TokenView>, b: int) -> Option<ModelReferenceView> {
    if 0 <= b && b + 1 < ts.len() && is_symbol_spec(ts[b + 1]) {
        let e = dotted_end(ts, b + 1);
        Some(
            ModelReferenceView {
                name: ts[e].text,
                name_range: ts[e].range,
                reference_range: TextRange { start: ts[b].range.start, end: ts[e].range.end },
            },
        )
    } else {
        None
    }
}

fn dotted_end_exec(tokens: &[Token], j: usize) -> (r: usize)
    requires
        j < tokens@.len(),
        is_symbol_spec(tokens@[j as int]@),
    ensures
        r as int == dotted_end(tokens_view(tokens@), j as int),
        r < tokens@.len(),
{
    let ghost tv = tokens_view(tokens@);
    let mut e = j;
    while tokens.len() - e > 2 && text_is(&tokens[e + 1], ".") && is_symbol_name(&tokens[e + 2])
        invariant
            j <= e < tokens@.len(),
            tv == tokens_view(tokens@),
            dotted_end(tv, e as int) == dotted_end(tv, j as int),
        decreases tokens@.len() - e,
    {
        assert(tv[e + 1] == tokens@[e + 1]@);
        assert(tv[e + 2] == tokens@[e + 2]@);
        e = e + 2;
    }
    proof {
        if e + 2 < tokens@.len() {
            assert(tv[e + 1] == tokens@[e + 1]@);
            assert(tv[e + 2] == tokens@[e + 2]@);
        }
    }
    e
}

fn model_reference_at(tokens: &[Token], b: usize) -> (r: Option<ModelReference>)
    ensures
        opt_model_reference(r) == model_reference_at_spec(tokens_view(tokens@), b as int),
{
    let ghost tv = tokens_view(tokens@);
    if b >= tokens.len() || tokens.len() - b < 2 {
        return None;
    }
    let first = &tokens[b + 1];
    assert(tv[b + 1] == first@);
    assert(tv[b as int] == tokens@[b as int]@);
    if !is_symbol_name(first) {
        return None;
    }
    let e = dotted_end_exec(tokens, b + 1);
    let name = &tokens[e];
    assert(tv[e as int] == name@);
    Some(
        ModelReference {
            name: name.text.clone(),
            name_range: name.range,
            reference_range: TextRange { start: tokens[b].range.start, end: name.range.end },
        },
    )
}

/// The first reference after `start`.
pub open spec fn model_reference_after_spec(ts: Seq<TokenView>, start: int) -> Option<ModelReferenceView> {
    match first_text_from(ts, "`"@, start) {
        Some(i) => model_reference_at_spec(ts, i),
        None => None,
    }
}

fn model_reference_after(tokens: &[Token], start: usize) -> (r: Option<ModelReference>)
    ensures
        opt_model_reference(r) == model_reference_after_spec(tokens_view(tokens@), start as int),
{
    match first_text_exec(tokens, "`", start) {
        Some(i) => model_reference_at(tokens, i),
        None => None,
    }
}

/// The references among the first `k` significant tokens.
pub open spec fn references_upto(sig: Seq<TokenView>, k: int) -> Seq<ModelReferenceView>
    decreases k,
{
    if k <= 0 {
        Seq::empty()
    } else {
        let p = references_upto(sig, k - 1);
        if sig[k - 1].text == "`"@ {
            match model_reference_at_spec(sig, k - 1) {
                Some(r) => p.push(r),
                None => p,
            }
        } else {
            p
        }
    }
}

/// The model references of a document: each backtick followed by a name.
pub open spec fn model_references_spec(ts: Seq<TokenView>) -> Seq<ModelReferenceView> {
    let sig = crate::completion::significant(ts);
    references_upto(sig, sig.len() as int)
}

fn significant_copies(tokens: &[Token]) -> (r: Vec<Token>)
    ensures
        tokens_view(r@) == crate::completion::significant(tokens_view(tokens@)),
{
    let ghost tv = tokens_view(tokens@);
    let mut out: Vec<Token> = Vec::new();
    let mut i: usize = 0;
    while i < tokens.len()
        invariant
            i <= tokens@.len(),
            tv == tokens_view(tokens@),
            tokens_view(out@) == crate::completion::significant(tv.take(i as int)),
        decreases tokens@.len() - i,
    {
        let t = &tokens[i];
        proof {
            assert(tv.take(i + 1).drop_last() =~= tv.take(i as int));
            assert(tv.take(i + 1).last() == t@);
        }
        if !is_trivia(t.kind) {
            let c = copy_token(t);
            assert(tokens_view(out@.push(c)) =~= tokens_view(out@).push(c@));
            out.push(c);
        }
        i = i + 1;
    }
    assert(tv.take(tokens@.len() as int) =~= tv);
    out
}

fn model_references(tokens: &[Token]) -> (r: Vec<ModelReference>)
    ensures
        views(r@) == model_references_spec(tokens_view(tokens@)),
{
    let significant = significant_copies(tokens);
    let ghost sig = tokens_view(significant@);
    let mut references: Vec<ModelReference> = Vec::new();
    let mut i: usize = 0;
    while i < significant.len()
        invariant
            i <= significant@.len(),
            sig == tokens_view(significant@),
            views(references@) == references_upto(sig, i as int),
        decreases significant@.len() - i,
    {
        assert(sig[i as int] == significant@[i as int]@);
        if text_is(&significant[i], "`") {
            match model_reference_at(significant.as_slice(), i) {
                Some(reference) => {
                    proof {
                        lemma_views_push(references@, reference);
                    }
                    references.push(reference);
                },
                None => {},
            }
        }
        i = i + 1;
    }
    references
}

// ---------------------------------------------------------------------------
// Imports and specialization targets
// ---------------------------------------------------------------------------

/// The words that may name what an import brings in.
pub open spec fn is_import_kind_word(t: Seq<char>) -> bool {
    t == "model"@ || t == "models"@ || t == "interface"@ || t == "template"@ || t == "poset"@
}

/// The names an import lists from `j` on: each a name, after a backtick or
/// not, and the next one after a comma.
pub open spec fn imported_names_from(sig: Seq<TokenView>, j: int) -> Seq<TextRange>
    decreases sig.len() - j,
{
    let n = if 0 <= j < sig.len() && sig[j].text == "`"@ {
        j + 1
    } else {
        j
    };
    if 0 <= n < sig.len() && is_symbol_spec(sig[n]) {
        if n + 1 < sig.len() && sig[n + 1].text == ","@ {
            seq![sig[n].range] + imported_names_from(sig, n + 2)
        } else {
            seq![sig[n].range]
        }
    } else {
        Seq::empty()
    }
}

/// The import whose `import` keyword is `sig[i]`: the library named just
/// before it after `library`, and the names after it, past a word such as
/// `model` or `interface`.
pub open spec fn import_at_spec(sig: Seq<TokenView>, i: int) -> ImportSymbolView {
    let library_range = if 2 <= i < sig.len() && sig[i - 2].text == "library"@ && is_symbol_spec(sig[i - 1]) {
        Some(sig[i - 1].range)
    } else {
        None
    };
    let start = if i + 1 < sig.len() && is_import_kind_word(sig[i + 1].text) {
        i + 2
    } else {
        i + 1
    };
    ImportSymbolView { library_range, imported_name_ranges: imported_names_from(sig, start) }
}

/// The imports among the first `k` significant tokens.
pub open spec fn imports_upto(sig: Seq<TokenView>, k: int) -> Seq<ImportSymbolView>
    decreases k,
{
    if k <= 0 {
        Seq::empty()
    } else {
        let p = imports_upto(sig, k - 1);
        if sig[k - 1].text == "import"@ {
            p.push(import_at_spec(sig, k - 1))
        } else {
            p
        }
    }
}

/// The imports of a document, wherever they stand in it.
pub open spec fn imports_spec(ts: Seq<TokenView>) -> Seq<ImportSymbolView> {
    let sig = crate::completion::significant(ts);
    imports_upto(sig, sig.len() as int)
}

fn imported_names(sig: &[Token], start: usize) -> (r: Vec<TextRange>)
    requires
        start <= sig@.len(),
    ensures
        r@ == imported_names_from(tokens_view(sig@), start as int),
{
    let ghost tv = tokens_view(sig@);
    let ghost full = imported_names_from(tv, start as int);
    let mut out: Vec<TextRange> = Vec::new();
    let mut j = start;
    assert(out@ + full =~= full);
    while j < sig.len()
        invariant
            j <= sig@.len(),
            tv == tokens_view(sig@),
            out@ + imported_names_from(tv, j as int) == full,
        decreases sig@.len() - j,
    {
        assert(tv[j as int] == sig@[j as int]@);
        let n = if text_is(&sig[j], "`") {
            j + 1
        } else {
            j
        };
        let ghost rest = imported_names_from(tv, j as int);
        if n < sig.len() && is_symbol_name(&sig[n]) {
            assert(tv[n as int] == sig@[n as int]@);
            let ghost before = out@;
            out.push(sig[n].range);
            if sig.len() - n > 1 && text_is(&sig[n + 1], ",") {
                assert(tv[n + 1] == sig@[n + 1]@);
                assert(rest == seq![sig@[n as int].range] + imported_names_from(tv, n + 2));
                assert(out@ + imported_names_from(tv, n + 2) =~= before + rest);
                j = n + 2;
            } else {
                proof {
                    if n + 1 < sig@.len() {
                        assert(tv[n + 1] == sig@[n + 1]@);
                    }
                }
                assert(rest == seq![sig@[n as int].range]);
                assert(imported_names_from(tv, sig@.len() as int) =~= Seq::<TextRange>::empty());
                assert(out@ + imported_names_from(tv, sig@.len() as int) =~= before + rest);
                j = sig.len();
            }
        } else {
            proof {
                if n < sig@.len() {
                    assert(tv[n as int] == sig@[n as int]@);
                }
            }
            assert(rest =~= Seq::<TextRange>::empty());
            assert(imported_names_from(tv, sig@.len() as int) =~= Seq::<TextRange>::empty());
            assert(out@ + imported_names_from(tv, sig@.len() as int) =~= out@ + rest);
            j = sig.len();
        }
    }
    assert(imported_names_from(tv, j as int) =~= Seq::<TextRange>::empty());
    assert(out@ =~= out@ + imported_names_from(tv, j as int));
    out
}

fn import_at(sig: &[Token], i: usize) -> (r: ImportSymbol)
    requires
        i < sig@.len(),
    ensures
        r@ == import_at_spec(tokens_view(sig@), i as int),
{
    let ghost tv = tokens_view(sig@);
    let library_range = if i >= 2 && text_is(&sig[i - 2], "library") && is_symbol_name(&sig[i - 1]) {
        assert(tv[i - 2] == sig@[i - 2]@);
        assert(tv[i - 1] == sig@[i - 1]@);
        Some(sig[i - 1].range)
    } else {
        proof {
            if i >= 2 {
                assert(tv[i - 2] == sig@[i - 2]@);
                assert(tv[i - 1] == sig@[i - 1]@);
            }
        }
        None
    };
    let start = if sig.len() - i > 1 && is_import_kind(&sig[i + 1]) {
        assert(tv[i + 1] == sig@[i + 1]@);
        i + 2
    } else {
        proof {
            if i + 1 < sig@.len() {
                assert(tv[i + 1] == sig@[i + 1]@);
            }
        }
        i + 1
    };
    ImportSymbol { library_range, imported_name_ranges: imported_names(sig, start) }
}

fn is_import_kind(t: &Token) -> (r: bool)
    ensures
        r == is_import_kind_word(t@.text),
{
    text_is(t, "model") || text_is(t, "models") || text_is(t, "interface") || text_is(t, "template")
        || text_is(t, "poset")
}

fn imports(tokens: &[Token]) -> (r: Vec<ImportSymbol>)
    ensures
        views(r@) == imports_spec(tokens_view(tokens@)),
{
    let significant = significant_copies(tokens);
    let ghost sig = tokens_view(significant@);
    let mut out: Vec<ImportSymbol> = Vec::new();
    let mut i: usize = 0;
    while i < significant.len()
        invariant
            i <= significant@.len(),
            sig == tokens_view(significant@),
            views(out@) == imports_upto(sig, i as int),
        decreases significant@.len() - i,
    {
        assert(sig[i as int] == significant@[i as int]@);
        if text_is(&significant[i], "import") {
            let import = import_at(significant.as_slice(), i);
            proof {
                lemma_views_push(out@, import);
            }
            out.push(import);
        }
        i = i + 1;
    }
    out
}

/// The first of the references that lies within a range, from index `i` on.
pub open spec fn first_reference_within(refs: Seq<ModelReferenceView>, r: TextRange, i: int) -> Option<
    ModelReferenceView,
>
    decreases refs.len() - i,
{
    if i < 0 || i >= refs.len() {
        None
    } else if r.start <= refs[i].reference_range.start && refs[i].reference_range.end <= r.end {
        Some(refs[i])
    } else {
        first_reference_within(refs, r, i + 1)
    }
}

/// The template a `specialize` document instantiates: the reference in the
/// target after its bindings.
pub open spec fn specialize_target_spec(body: SyntaxBodyView, refs: Seq<ModelReferenceView>) -> Option<
    ModelReferenceView,
> {
    match body {
        SyntaxBodyView::Specialize { target: Some(t), .. } => first_reference_within(refs, t.range, 0),
        _ => None,
    }
}

fn copy_reference(r: &ModelReference) -> (c: ModelReference)
    ensures
        c@ == r@,
{
    ModelReference { name: r.name.clone(), name_range: r.name_range, reference_range: r.reference_range }
}

fn specialize_target(body: &SyntaxBody, refs: &Vec<ModelReference>) -> (r: Option<ModelReference>)
    ensures
        opt_model_reference(r) == specialize_target_spec(body@, views(refs@)),
{
    let ghost rv = views(refs@);
    match body {
        SyntaxBody::Specialize { target: Some(t), .. } => {
            let range = t.range;
            assert(specialize_target_spec(body@, rv) == first_reference_within(rv, range, 0));
            let mut i: usize = 0;
            while i < refs.len()
                invariant
                    i <= refs@.len(),
                    rv == views(refs@),
                    first_reference_within(rv, range, i as int) == first_reference_within(rv, range, 0),
                specialize_target_spec(body@, rv) == first_reference_within(rv, range, 0),
                decreases refs@.len() - i,
            {
                assert(rv[i as int] == refs@[i as int]@);
                let rr = refs[i].reference_range;
                if range.start <= rr.start && rr.end <= range.end {
                    assert(first_reference_within(rv, range, i as int) == Some(rv[i as int]));
                    return Some(copy_reference(&refs[i]));
                }
                i = i + 1;
            }
            None
        },
        _ => None,
    }
}


/// A quoted token's range without its quotes.
pub open spec fn quoted_content_spec(t: TokenView) -> TextRange {
    if t.text.len() >= 2 && (t.text[0] == '"' || t.text[0] == '\'') && t.text.last() == t.text[0]
        && t.range.end >= 1 && t.range.start < usize::MAX {
        TextRange { start: (t.range.start + 1) as usize, end: (t.range.end - 1) as usize }
    } else {
        t.range
    }
}

fn quoted_content_range(token: &Token) -> (r: TextRange)
    ensures
        r == quoted_content_spec(token@),
{
    let chars = chars_of(token.text.as_str());
    if chars.len() >= 2 && (chars[0] == '"' || chars[0] == '\'') && chars[chars.len() - 1] == chars[0]
        && token.range.end >= 1 && token.range.start < usize::MAX {
        TextRange { start: token.range.start + 1, end: token.range.end - 1 }
    } else {
        token.range
    }
}

/// A text without the matching quotes around it.
pub open spec fn strip_quotes_spec(t: Seq<char>) -> Seq<char> {
    if t.len() >= 2 && (t[0] == '"' || t[0] == '\'') && t.last() == t[0] {
        t.subrange(1, t.len() - 1)
    } else {
        t
    }
}

fn strip_quotes(text: &str) -> (r: String)
    ensures
        r@ == strip_quotes_spec(text@),
{
    let chars = chars_of(text);
    if chars.len() >= 2 && (chars[0] == '"' || chars[0] == '\'') && chars[chars.len() - 1] == chars[0] {
        string_from_range(chars.as_slice(), 1, chars.len() - 1)
    } else {
        text.to_owned()
    }
}

/// The trimmed text between a `[` at or after `start` and its matching `]`.
pub open spec fn bracket_spec(s: Seq<char>, ts: Seq<TokenView>, start: int) -> Option<SymbolTextView> {
    match first_text_from(ts, "["@, start) {
        None => None,
        Some(o) => match matching_close_from(ts, "["@, "]"@, o, 0) {
            None => None,
            Some(c) => {
                let r = trim_range_spec(s, TextRange { start: ts[o].range.end, end: ts[c].range.start });
                if r.start == r.end {
                    None
                } else {
                    Some(SymbolTextView { text: range_chars(s, r), range: r })
                }
            },
        },
    }
}

fn bracket_expression(index: &LineIndex, tokens: &[Token], start: usize) -> (r: Option<SymbolText>)
    requires
        index.wf(),
    ensures
        opt_symbol_text(r) == bracket_spec(index@, tokens_view(tokens@), start as int),
{
    let ghost tv = tokens_view(tokens@);
    let open = match first_text_exec(tokens, "[", start) {
        Some(o) => o,
        None => return None,
    };
    proof {
        lemma_first_text_from(tv, "["@, start as int);
    }
    let close = match matching_close(tokens, open, "[", "]") {
        Some(c) => c,
        None => return None,
    };
    proof {
        lemma_matching_close(tv, "["@, "]"@, open as int, 0);
    }
    assert(tv[open as int] == tokens@[open as int]@);
    assert(tv[close as int] == tokens@[close as int]@);
    let range = trim_range(index, TextRange { start: tokens[open].range.end, end: tokens[close].range.start });
    if range.start == range.end {
        return None;
    }
    Some(SymbolText { text: range_text(index, range), range })
}

/// Index of the first `provides` or `requires` token.
pub open spec fn first_port_keyword(ts: Seq<TokenView>, i: int) -> Option<int>
    decreases ts.len() - i,
{
    if i < 0 || i >= ts.len() {
        None
    } else if ts[i].text == "provides"@ || ts[i].text == "requires"@ {
        Some(i)
    } else {
        first_port_keyword(ts, i + 1)
    }
}

/// The port a `provides` or `requires` statement declares: the name after
/// the keyword and the unit in the brackets after the name.
pub open spec fn port_symbol_spec(s: Seq<char>, st: TextRange, ts: Seq<TokenView>) -> Option<PortSymbolView> {
    match first_port_keyword(ts, 0) {
        None => None,
        Some(k) => if k + 1 < ts.len() && is_symbol_spec(ts[k + 1]) {
            Some(
                PortSymbolView {
                    name: ts[k + 1].text,
                    name_range: ts[k + 1].range,
                    unit: bracket_spec(s, ts, k + 2),
                    poset: None,
                    declaration_range: st,
                },
            )
        } else {
            None
        },
    }
}

fn port_symbol(index: &LineIndex, st: TextRange, tokens: &[Token]) -> (r: Option<PortSymbol>)
    requires
        index.wf(),
    ensures
        match r {
            Some(p) => port_symbol_spec(index@, st, tokens_view(tokens@)) == Some(p@),
            None => port_symbol_spec(index@, st, tokens_view(tokens@)) is None,
        },
{
    let ghost tv = tokens_view(tokens@);
    let mut k: usize = 0;
    while k < tokens.len() && !(text_is(&tokens[k], "provides") || text_is(&tokens[k], "requires"))
        invariant
            k <= tokens@.len(),
            tv == tokens_view(tokens@),
            first_port_keyword(tv, 0) == first_port_keyword(tv, k as int),
        decreases tokens@.len() - k,
    {
        assert(tv[k as int] == tokens@[k as int]@);
        k = k + 1;
    }
    if k == tokens.len() {
        return None;
    }
    assert(tv[k as int] == tokens@[k as int]@);
    let name_index = k + 1;
    if name_index >= tokens.len() {
        return None;
    }
    let name = &tokens[name_index];
    assert(tv[name_index as int] == name@);
    if !is_symbol_name(name) {
        return None;
    }
    Some(
        PortSymbol {
            name: name.text.clone(),
            name_range: name.range,
            unit: bracket_expression(index, tokens, name_index + 1),
            poset: None,
            declaration_range: st,
        },
    )
}

/// The assignment a statement declares: the first token as name, the unit
/// in brackets after `=`, and the trimmed expression after it.
pub open spec fn assignment_symbol_spec(s: Seq<char>, st: TextRange, ts: Seq<TokenView>) -> Option<AssignmentSymbolView> {
    match first_text_from(ts, "="@, 0) {
        None => None,
        Some(eq) => if ts.len() == 0 || !is_symbol_spec(ts[0]) || eq == 0 {
            None
        } else {
            let expression_start = if eq + 1 < ts.len() {
                ts[eq + 1].range.start
            } else {
                st.end
            };
            Some(
                AssignmentSymbolView {
                    name: ts[0].text,
                    name_range: ts[0].range,
                    unit: bracket_spec(s, ts, eq + 1),
                    expression_range: trim_range_spec(s, TextRange { start: expression_start, end: st.end }),
                    declaration_range: st,
                },
            )
        },
    }
}

fn assignment_symbol(index: &LineIndex, st: TextRange, tokens: &[Token]) -> (r: Option<AssignmentSymbol>)
    requires
        index.wf(),
    ensures
        match r {
            Some(a) => assignment_symbol_spec(index@, st, tokens_view(tokens@)) == Some(a@),
            None => assignment_symbol_spec(index@, st, tokens_view(tokens@)) is None,
        },
{
    let ghost tv = tokens_view(tokens@);
    let eq = match first_text_exec(tokens, "=", 0) {
        Some(e) => e,
        None => return None,
    };
    proof {
        lemma_first_text_from(tv, "="@, 0);
    }
    if tokens.len() == 0 {
        return None;
    }
    let name = &tokens[0];
    assert(tv[0] == name@);
    if !is_symbol_name(name) || eq == 0 {
        return None;
    }
    let expression_start = if eq + 1 < tokens.len() {
        assert(tv[eq + 1] == tokens@[eq + 1]@);
        tokens[eq + 1].range.start
    } else {
        st.end
    };
    let expression_range = trim_range(index, TextRange { start: expression_start, end: st.end });
    Some(
        AssignmentSymbol {
            name: name.text.clone(),
            name_range: name.range,
            unit: bracket_expression(index, tokens, eq + 1),
            expression_range,
            declaration_range: st,
        },
    )
}

/// The instance a statement binds: the name (after `sub`, if present)
/// before `instance`, the model referenced after it, and whether
/// `specialize` comes right after `instance`.
pub open spec fn instance_binding_spec(st: TextRange, ts: Seq<TokenView>) -> Option<InstanceBindingView> {
    match first_text_from(ts, "instance"@, 0) {
        None => None,
        Some(ii) => {
            let ni = if ts.len() > 0 && ts[0].text == "sub"@ {
                1int
            } else {
                0int
            };
            if ni >= ts.len() || !is_symbol_spec(ts[ni]) || ni >= ii {
                None
            } else {
                Some(
                    InstanceBindingView {
                        name: ts[ni].text,
                        name_range: ts[ni].range,
                        model: model_reference_after_spec(ts, ii + 1),
                        declaration_range: st,
                        specializes_template: ii + 1 < ts.len() && ts[ii + 1].text == "specialize"@,
                    },
                )
            }
        },
    }
}

fn instance_binding(st: TextRange, tokens: &[Token]) -> (r: Option<InstanceBinding>)
    ensures
        match r {
            Some(b) => instance_binding_spec(st, tokens_view(tokens@)) == Some(b@),
            None => instance_binding_spec(st, tokens_view(tokens@)) is None,
        },
{
    let ghost tv = tokens_view(tokens@);
    let ii = match first_text_exec(tokens, "instance", 0) {
        Some(i) => i,
        None => return None,
    };
    proof {
        lemma_first_text_from(tv, "instance"@, 0);
    }
    let ni: usize = if tokens.len() > 0 && text_is(&tokens[0], "sub") {
        assert(tv[0] == tokens@[0]@);
        1
    } else {
        proof {
            if tokens@.len() > 0 {
                assert(tv[0] == tokens@[0]@);
            }
        }
        0
    };
    if ni >= tokens.len() {
        return None;
    }
    let name = &tokens[ni];
    assert(tv[ni as int] == name@);
    if !is_symbol_name(name) || ni >= ii {
        return None;
    }
    let specializes = if tokens.len() - ii > 1 {
        assert(tv[ii + 1] == tokens@[ii + 1]@);
        text_is(&tokens[ii + 1], "specialize")
    } else {
        false
    };
    Some(
        InstanceBinding {
            name: name.text.clone(),
            name_range: name.range,
            model: model_reference_after(tokens, ii + 1),
            declaration_range: st,
            specializes_template: specializes,
        },
    )
}

/// Index of the first string token at or after `i`.
pub open spec fn first_string_from(ts: Seq<TokenView>, i: int) -> Option<int>
    decreases ts.len() - i,
{
    if i < 0 || i >= ts.len() {
        None
    } else if ts[i].kind == TokenKind::String {
        Some(i)
    } else {
        first_string_from(ts, i + 1)
    }
}

/// The `resource("path")` of an implementation statement.
pub open spec fn resource_binding_spec(st: TextRange, ts: Seq<TokenView>) -> Option<ResourceBindingView> {
    match first_text_from(ts, "resource"@, 0) {
        None => None,
        Some(ri) => match first_string_from(ts, ri + 1) {
            None => None,
            Some(pi) => Some(
                ResourceBindingView {
                    path: strip_quotes_spec(ts[pi].text),
                    path_range: quoted_content_spec(ts[pi]),
                    expression_range: TextRange { start: ts[ri].range.start, end: ts[pi].range.end },
                    declaration_range: st,
                },
            ),
        },
    }
}

fn resource_binding(st: TextRange, tokens: &[Token]) -> (r: Option<ResourceBinding>)
    ensures
        match r {
            Some(b) => resource_binding_spec(st, tokens_view(tokens@)) == Some(b@),
            None => resource_binding_spec(st, tokens_view(tokens@)) is None,
        },
{
    let ghost tv = tokens_view(tokens@);
    let ri = match first_text_exec(tokens, "resource", 0) {
        Some(i) => i,
        None => return None,
    };
    proof {
        lemma_first_text_from(tv, "resource"@, 0);
    }
    let mut pi = ri + 1;
    while pi < tokens.len() && tokens[pi].kind != TokenKind::String
        invariant
            ri < pi,
            tv == tokens_view(tokens@),
            first_string_from(tv, ri + 1) == first_string_from(tv, pi as int),
        decreases tokens@.len() - pi,
    {
        assert(tv[pi as int] == tokens@[pi as int]@);
        pi = pi + 1;
    }
    if pi >= tokens.len() {
        return None;
    }
    let path = &tokens[pi];
    assert(tv[pi as int] == path@);
    assert(tv[ri as int] == tokens@[ri as int]@);
    Some(
        ResourceBinding {
            path: strip_quotes(path.text.as_str()),
            path_range: quoted_content_range(path),
            expression_range: TextRange { start: tokens[ri].range.start, end: path.range.end },
            declaration_range: st,
        },
    )
}

/// Index of the first relation operator token.
pub open spec fn first_relation(ts: Seq<TokenView>, i: int) -> Option<int>
    decreases ts.len() - i,
{
    if i < 0 || i >= ts.len() {
        None
    } else if crate::completion::is_relation_operator_spec(ts[i].text) {
        Some(i)
    } else {
        first_relation(ts, i + 1)
    }
}

/// The sides of a relation statement around its first relation operator,
/// both trimmed and non-empty.
pub open spec fn relation_constraint_spec(s: Seq<char>, st: TextRange, ts: Seq<TokenView>) -> Option<RelationConstraint> {
    match first_relation(ts, 0) {
        None => None,
        Some(k) => {
            let rel = ts[k];
            let left = trim_range_spec(s, TextRange { start: st.start, end: rel.range.start });
            let right = trim_range_spec(s, TextRange { start: rel.range.end, end: st.end });
            if left.start == left.end || right.start == right.end {
                None
            } else {
                Some(
                    RelationConstraint {
                        left_range: left,
                        relation_range: rel.range,
                        right_range: right,
                        statement_range: st,
                    },
                )
            }
        },
    }
}

fn relation_constraint(index: &LineIndex, st: TextRange, tokens: &[Token]) -> (r: Option<RelationConstraint>)
    requires
        index.wf(),
    ensures
        r == relation_constraint_spec(index@, st, tokens_view(tokens@)),
{
    let ghost tv = tokens_view(tokens@);
    let mut k: usize = 0;
    while k < tokens.len() && !crate::completion::is_relation_operator(tokens[k].text.as_str())
        invariant
            k <= tokens@.len(),
            tv == tokens_view(tokens@),
            first_relation(tv, 0) == first_relation(tv, k as int),
        decreases tokens@.len() - k,
    {
        assert(tv[k as int] == tokens@[k as int]@);
        k = k + 1;
    }
    if k == tokens.len() {
        return None;
    }
    let relation = &tokens[k];
    assert(tv[k as int] == relation@);
    let left = trim_range(index, TextRange { start: st.start, end: relation.range.start });
    let right = trim_range(index, TextRange { start: relation.range.end, end: st.end });
    if left.start == left.end || right.start == right.end {
        return None;
    }
    Some(RelationConstraint { left_range: left, relation_range: relation.range, right_range: right, statement_range: st })
}

// ---------------------------------------------------------------------------
// Symbols of a whole document
// ---------------------------------------------------------------------------

/// The direction the compiler's model gives a port of this side.
pub open spec fn compiler_direction(d: PortDirection) -> crate::graph::PortDirection {
    match d {
        PortDirection::Provided => crate::graph::PortDirection::Provides,
        PortDirection::Required => crate::graph::PortDirection::Requires,
    }
}

/// The poset of the first port at or after `i` with this direction and name.
pub open spec fn port_poset_from(
    ports: Seq<PortDeclView>,
    d: crate::graph::PortDirection,
    name: Seq<char>,
    i: int,
) -> Option<PosetView>
    decreases ports.len() - i,
{
    if i < 0 || i >= ports.len() {
        None
    } else if ports[i].direction == d && ports[i].name == name {
        Some(ports[i].poset)
    } else {
        port_poset_from(ports, d, name, i + 1)
    }
}

/// The poset that the lowered model declares for a port, if it has one.
pub open spec fn semantic_port_poset_spec(model: Option<ModelView>, d: PortDirection, name: Seq<char>) -> Option<
    PosetView,
> {
    match model {
        None => None,
        Some(m) => port_poset_from(m.ports, compiler_direction(d), name, 0),
    }
}

fn semantic_port_poset(model: &Option<SemanticModel>, d: PortDirection, name: &str) -> (r: Option<PosetRef>)
    ensures
        opt_poset(r) == semantic_port_poset_spec(opt_model_view(*model), d, name@),
{
    let m = match model {
        Some(m) => m,
        None => return None,
    };
    let wanted = match d {
        PortDirection::Provided => crate::graph::PortDirection::Provides,
        PortDirection::Required => crate::graph::PortDirection::Requires,
    };
    let ghost pv = m@.ports;
    assert(semantic_port_poset_spec(opt_model_view(*model), d, name@) == port_poset_from(pv, wanted, name@, 0));
    let mut i: usize = 0;
    while i < m.ports.len()
        invariant
            i <= m.ports@.len(),
            pv == views_of_ports(m.ports@),
            wanted == compiler_direction(d),
            semantic_port_poset_spec(opt_model_view(*model), d, name@) == port_poset_from(pv, wanted, name@, i as int),
        decreases m.ports@.len() - i,
    {
        let port = &m.ports[i];
        assert(pv[i as int] == port@);
        if port.direction == wanted && str_eq(port.name.as_str(), name) {
            let found = crate::poset::copy_poset(&port.poset);
            assert(pv[i as int].direction == wanted && pv[i as int].name == name@);
            assert(port_poset_from(pv, wanted, name@, i as int) == Some(pv[i as int].poset));
            return Some(found);
        }
        i = i + 1;
    }
    None
}

pub open spec fn views_of_ports(s: Seq<crate::semantic::PortDecl>) -> Seq<PortDeclView> {
    crate::semantic::views_of(s)
}

/// A unit declared by a statement.
pub open spec fn declared_unit_spec(u: SymbolTextView, st: TextRange) -> DeclaredUnitView {
    DeclaredUnitView { name: u.text, range: u.range, declaration_range: st }
}

/// The declared units after a declaration with this unit, if any.
pub open spec fn units_with(units: Seq<DeclaredUnitView>, unit: Option<SymbolTextView>, st: TextRange) -> Seq<
    DeclaredUnitView,
> {
    match unit {
        Some(u) => units.push(declared_unit_spec(u, st)),
        None => units,
    }
}

/// The symbols after one more statement.
pub open spec fn symbols_step(
    s: Seq<char>,
    tv: Seq<TokenView>,
    model: Option<ModelView>,
    acc: DocumentSymbolsView,
    st: StatementView,
) -> DocumentSymbolsView {
    let ts = tokens_within(tv, st.range);
    match st.kind {
        StatementKind::Provides => match port_symbol_spec(s, st.range, ts) {
            Some(p) => DocumentSymbolsView {
                provides: acc.provides.push(
                    PortSymbolView { poset: semantic_port_poset_spec(model, PortDirection::Provided, p.name), ..p },
                ),
                declared_units: units_with(acc.declared_units, p.unit, st.range),
                ..acc
            },
            None => acc,
        },
        StatementKind::Requires => match port_symbol_spec(s, st.range, ts) {
            Some(p) => DocumentSymbolsView {
                requires: acc.requires.push(
                    PortSymbolView { poset: semantic_port_poset_spec(model, PortDirection::Required, p.name), ..p },
                ),
                declared_units: units_with(acc.declared_units, p.unit, st.range),
                ..acc
            },
            None => acc,
        },
        StatementKind::Instance => match instance_binding_spec(st.range, ts) {
            Some(b) => DocumentSymbolsView { instances: acc.instances.push(b), ..acc },
            None => acc,
        },
        StatementKind::ImplementedBy => match resource_binding_spec(st.range, ts) {
            Some(b) => DocumentSymbolsView { resource_bindings: acc.resource_bindings.push(b), ..acc },
            None => acc,
        },
        StatementKind::Constraint => match relation_constraint_spec(s, st.range, ts) {
            Some(c) => DocumentSymbolsView { relations: acc.relations.push(c), ..acc },
            None => acc,
        },
        StatementKind::Assignment => match assignment_symbol_spec(s, st.range, ts) {
            Some(a) => DocumentSymbolsView {
                assignments: acc.assignments.push(a),
                declared_units: units_with(acc.declared_units, a.unit, st.range),
                ..acc
            },
            None => acc,
        },
        _ => acc,
    }
}

/// The symbols after the first `k` statements.
pub open spec fn symbols_upto(
    s: Seq<char>,
    tv: Seq<TokenView>,
    model: Option<ModelView>,
    base: DocumentSymbolsView,
    stmts: Seq<StatementView>,
    k: int,
) -> DocumentSymbolsView
    decreases k,
{
    if k <= 0 {
        base
    } else {
        symbols_step(s, tv, model, symbols_upto(s, tv, model, base, stmts, k - 1), stmts[k - 1])
    }
}

/// The range of the first significant token, or the empty range at 0.
pub open spec fn definition_range_spec(tv: Seq<TokenView>) -> TextRange {
    match first_non_trivia_from(tv, 0, tv.len() as int) {
        Some(i) => tv[i].range,
        None => TextRange { start: 0, end: 0 },
    }
}

/// A document's symbols before any statement is read.
pub open spec fn base_symbols(
    uri: Seq<char>,
    source: Seq<char>,
    kind: Option<DocumentKind>,
    tv: Seq<TokenView>,
    target: Option<ModelReferenceView>,
) -> DocumentSymbolsView {
    DocumentSymbolsView {
        uri,
        source,
        kind,
        definition_range: definition_range_spec(tv),
        provides: Seq::empty(),
        requires: Seq::empty(),
        assignments: Seq::empty(),
        instances: Seq::empty(),
        model_references: model_references_spec(tv),
        resource_bindings: Seq::empty(),
        declared_units: Seq::empty(),
        relations: Seq::empty(),
        specialize_target: target,
        imports: imports_spec(tv),
    }
}

/// The symbols of a document: its statements read in order, each port with
/// the poset that the lowered model gives it.
pub open spec fn document_symbols_spec(uri: Seq<char>, source: Seq<char>) -> DocumentSymbolsView {
    let parsed = parse_document_spec(uri, source);
    let model = lower_document_spec(uri, parsed).0;
    let target = match parsed.syntax {
        Some(syn) => specialize_target_spec(syn.body, model_references_spec(parsed.tokens)),
        None => None,
    };
    let base = base_symbols(uri, source, parsed.kind, parsed.tokens, target);
    match parsed.syntax {
        None => base,
        Some(syn) => {
            let stmts = syn.body.statements();
            symbols_upto(source, parsed.tokens, model, base, stmts, stmts.len() as int)
        },
    }
}

/// Reading statements keeps what the document's base symbols say of the
/// document itself.
pub proof fn lemma_symbols_upto_keep(
    s: Seq<char>,
    tv: Seq<TokenView>,
    model: Option<ModelView>,
    base: DocumentSymbolsView,
    stmts: Seq<StatementView>,
    k: int,
)
    ensures
        symbols_upto(s, tv, model, base, stmts, k).uri == base.uri,
        symbols_upto(s, tv, model, base, stmts, k).source == base.source,
        symbols_upto(s, tv, model, base, stmts, k).kind == base.kind,
        symbols_upto(s, tv, model, base, stmts, k).definition_range == base.definition_range,
        symbols_upto(s, tv, model, base, stmts, k).model_references == base.model_references,
        symbols_upto(s, tv, model, base, stmts, k).specialize_target == base.specialize_target,
        symbols_upto(s, tv, model, base, stmts, k).imports == base.imports,
    decreases k,
{
    if k > 0 {
        lemma_symbols_upto_keep(s, tv, model, base, stmts, k - 1);
    }
}

/// A document's symbols carry its URI and text.
pub proof fn lemma_document_symbols_keep(uri: Seq<char>, source: Seq<char>)
    ensures
        document_symbols_spec(uri, source).uri == uri,
        document_symbols_spec(uri, source).source == source,
{
    let parsed = parse_document_spec(uri, source);
    let model = lower_document_spec(uri, parsed).0;
    let target = match parsed.syntax {
        Some(syn) => specialize_target_spec(syn.body, model_references_spec(parsed.tokens)),
        None => None,
    };
    let base = base_symbols(uri, source, parsed.kind, parsed.tokens, target);
    match parsed.syntax {
        None => {},
        Some(syn) => {
            let stmts = syn.body.statements();
            lemma_symbols_upto_keep(source, parsed.tokens, model, base, stmts, stmts.len() as int);
        },
    }
}

// ---------------------------------------------------------------------------
// Names stand in the source
// ---------------------------------------------------------------------------

/// A name and its range are those of a name token of the token list.
pub open spec fn names_a_token(tv: Seq<TokenView>, name: Seq<char>, range: TextRange) -> bool {
    exists|k: int| 0 <= k < tv.len() && is_symbol_spec(#[trigger] tv[k]) && tv[k].text == name && tv[k].range == range
}

/// The names of the ports, instances and model references of a document's
/// symbols are name tokens of these tokens.
pub open spec fn symbols_name_tokens(tv: Seq<TokenView>, d: DocumentSymbolsView) -> bool {
    &&& forall|i: int| 0 <= i < d.provides.len() ==> names_a_token(tv, #[trigger] d.provides[i].name, d.provides[i].name_range)
    &&& forall|i: int| 0 <= i < d.requires.len() ==> names_a_token(tv, #[trigger] d.requires[i].name, d.requires[i].name_range)
    &&& forall|i: int|
        0 <= i < d.instances.len() ==> names_a_token(tv, #[trigger] d.instances[i].name, d.instances[i].name_range)
    &&& forall|i: int|
        0 <= i < d.model_references.len() ==> names_a_token(
            tv,
            #[trigger] d.model_references[i].name,
            d.model_references[i].name_range,
        ) && d.model_references[i].reference_range.end == d.model_references[i].name_range.end
}

proof fn lemma_tokens_within_subset(ts: Seq<TokenView>, r: TextRange)
    ensures
        forall|j: int| 0 <= j < tokens_within(ts, r).len() ==> ts.contains(#[trigger] tokens_within(ts, r)[j]),
    decreases ts.len(),
{
    if ts.len() > 0 {
        lemma_tokens_within_subset(ts.drop_last(), r);
        let p = tokens_within(ts.drop_last(), r);
        assert forall|j: int| 0 <= j < tokens_within(ts, r).len() implies ts.contains(#[trigger] tokens_within(ts, r)[j]) by {
            if j < p.len() {
                assert(tokens_within(ts, r)[j] == p[j]);
                assert(ts.drop_last().contains(p[j]));
                let m = choose|m: int| 0 <= m < ts.drop_last().len() && ts.drop_last()[m] == p[j];
                assert(ts[m] == p[j]);
            } else {
                assert(ts[ts.len() - 1] == tokens_within(ts, r)[j]);
            }
        }
    }
}

proof fn lemma_significant_subset(ts: Seq<TokenView>)
    ensures
        forall|j: int|
            0 <= j < crate::completion::significant(ts).len() ==> ts.contains(
                #[trigger] crate::completion::significant(ts)[j],
            ),
    decreases ts.len(),
{
    if ts.len() > 0 {
        lemma_significant_subset(ts.drop_last());
        let p = crate::completion::significant(ts.drop_last());
        let q = crate::completion::significant(ts);
        assert forall|j: int| 0 <= j < q.len() implies ts.contains(#[trigger] q[j]) by {
            if j < p.len() {
                assert(q[j] == p[j]);
                assert(ts.drop_last().contains(p[j]));
                let m = choose|m: int| 0 <= m < ts.drop_last().len() && ts.drop_last()[m] == p[j];
                assert(ts[m] == p[j]);
            } else {
                assert(ts[ts.len() - 1] == q[j]);
            }
        }
    }
}

/// A token of a part is a token of the whole.
proof fn lemma_names_a_token_in(part: Seq<TokenView>, tv: Seq<TokenView>, k: int)
    requires
        0 <= k < part.len(),
        is_symbol_spec(part[k]),
        tv.contains(part[k]),
    ensures
        names_a_token(tv, part[k].text, part[k].range),
{
    let m = choose|m: int| 0 <= m < tv.len() && tv[m] == part[k];
    assert(is_symbol_spec(tv[m]));
}

proof fn lemma_references_name_tokens(sig: Seq<TokenView>, tv: Seq<TokenView>, k: int)
    requires
        0 <= k <= sig.len(),
        forall|j: int| 0 <= j < sig.len() ==> tv.contains(#[trigger] sig[j]),
    ensures
        forall|i: int|
            0 <= i < references_upto(sig, k).len() ==> names_a_token(
                tv,
                #[trigger] references_upto(sig, k)[i].name,
                references_upto(sig, k)[i].name_range,
            ) && references_upto(sig, k)[i].reference_range.end == references_upto(sig, k)[i].name_range.end,
    decreases k,
{
    if k > 0 {
        lemma_references_name_tokens(sig, tv, k - 1);
        let p = references_upto(sig, k - 1);
        let q = references_upto(sig, k);
        if sig[k - 1].text == "`"@ && model_reference_at_spec(sig, k - 1) is Some {
            lemma_dotted_end(sig, k);
            let e = dotted_end(sig, k);
            assert(tv.contains(sig[e]));
            lemma_names_a_token_in(sig, tv, e);
            let x = model_reference_at_spec(sig, k - 1).unwrap();
            assert(q == p.push(x));
            assert(x.name == sig[e].text && x.name_range == sig[e].range);
            assert forall|i: int| 0 <= i < q.len() implies names_a_token(tv, #[trigger] q[i].name, q[i].name_range)
                && q[i].reference_range.end == q[i].name_range.end by {
                if i < p.len() {
                    assert(q[i] == p[i]);
                } else {
                    assert(q[i] == x);
                }
            }
        } else {
            assert(q == p);
        }
    }
}

proof fn lemma_symbols_step_names(
    s: Seq<char>,
    tv: Seq<TokenView>,
    model: Option<ModelView>,
    acc: DocumentSymbolsView,
    st: StatementView,
)
    requires
        symbols_name_tokens(tv, acc),
    ensures
        symbols_name_tokens(tv, symbols_step(s, tv, model, acc, st)),
{
    let ts = tokens_within(tv, st.range);
    lemma_tokens_within_subset(tv, st.range);
    let r = symbols_step(s, tv, model, acc, st);
    if (st.kind == StatementKind::Provides || st.kind == StatementKind::Requires) && port_symbol_spec(
        s,
        st.range,
        ts,
    ) is Some {
        let k = first_port_keyword(ts, 0).unwrap();
        lemma_first_port_keyword(ts, 0);
        lemma_names_a_token_in(ts, tv, k + 1);
    }
    if st.kind == StatementKind::Instance && instance_binding_spec(st.range, ts) is Some {
        let ni = if ts.len() > 0 && ts[0].text == "sub"@ {
            1int
        } else {
            0int
        };
        lemma_names_a_token_in(ts, tv, ni);
    }
    assert(r.model_references == acc.model_references);
    assert forall|i: int| 0 <= i < r.provides.len() implies names_a_token(
        tv,
        #[trigger] r.provides[i].name,
        r.provides[i].name_range,
    ) by {
        if i < acc.provides.len() {
            assert(r.provides[i] == acc.provides[i]);
        }
    }
    assert forall|i: int| 0 <= i < r.requires.len() implies names_a_token(
        tv,
        #[trigger] r.requires[i].name,
        r.requires[i].name_range,
    ) by {
        if i < acc.requires.len() {
            assert(r.requires[i] == acc.requires[i]);
        }
    }
    assert forall|i: int| 0 <= i < r.instances.len() implies names_a_token(
        tv,
        #[trigger] r.instances[i].name,
        r.instances[i].name_range,
    ) by {
        if i < acc.instances.len() {
            assert(r.instances[i] == acc.instances[i]);
        }
    }
    assert forall|i: int| 0 <= i < r.model_references.len() implies names_a_token(
        tv,
        #[trigger] r.model_references[i].name,
        r.model_references[i].name_range,
    ) && r.model_references[i].reference_range.end == r.model_references[i].name_range.end by {
        assert(r.model_references[i] == acc.model_references[i]);
    }
    assert(symbols_name_tokens(tv, r));
}

proof fn lemma_first_port_keyword(ts: Seq<TokenView>, i: int)
    requires
        0 <= i,
    ensures
        first_port_keyword(ts, i) matches Some(k) ==> i <= k < ts.len(),
    decreases ts.len() - i,
{
    if i < ts.len() && !(ts[i].text == "provides"@ || ts[i].text == "requires"@) {
        lemma_first_port_keyword(ts, i + 1);
    }
}

proof fn lemma_symbols_upto_names(
    s: Seq<char>,
    tv: Seq<TokenView>,
    model: Option<ModelView>,
    base: DocumentSymbolsView,
    stmts: Seq<StatementView>,
    k: int,
)
    requires
        symbols_name_tokens(tv, base),
    ensures
        symbols_name_tokens(tv, symbols_upto(s, tv, model, base, stmts, k)),
    decreases k,
{
    if k > 0 {
        lemma_symbols_upto_names(s, tv, model, base, stmts, k - 1);
        lemma_symbols_step_names(s, tv, model, symbols_upto(s, tv, model, base, stmts, k - 1), stmts[k - 1]);
    }
}

/// The name of every port, instance and model reference of a document is
/// the text of a name token of the document, at that token's range (so it
/// holds no backtick), and a port's name is the source's slice at its
/// range; a model reference's range ends where its name does.
pub proof fn symbol_names_stand_in_the_source(uri: Seq<char>, source: Seq<char>)
    ensures
        symbols_name_tokens(lex_spec(source), document_symbols_spec(uri, source)),
        forall|i: int|
            0 <= i < document_symbols_spec(uri, source).provides.len() ==> is_source_slice(
                source,
                #[trigger] document_symbols_spec(uri, source).provides[i].name,
                document_symbols_spec(uri, source).provides[i].name_range,
            ),
        forall|i: int|
            0 <= i < document_symbols_spec(uri, source).requires.len() ==> is_source_slice(
                source,
                #[trigger] document_symbols_spec(uri, source).requires[i].name,
                document_symbols_spec(uri, source).requires[i].name_range,
            ),
{
    symbol_names_are_tokens(uri, source);
    let d = document_symbols_spec(uri, source);
    let tv = lex_spec(source);
    crate::syntax::tokens_are_slices_of_the_source(source);
    assert forall|i: int| 0 <= i < d.provides.len() implies is_source_slice(source, #[trigger] d.provides[i].name, d.provides[i].name_range) by {
        assert(names_a_token(tv, d.provides[i].name, d.provides[i].name_range));
        let k = choose|k: int| 0 <= k < tv.len() && is_symbol_spec(#[trigger] tv[k]) && tv[k].text == d.provides[i].name && tv[k].range == d.provides[i].name_range;
        assert(tv[k] == lex_spec(source)[k]);
    }
    assert forall|i: int| 0 <= i < d.requires.len() implies is_source_slice(source, #[trigger] d.requires[i].name, d.requires[i].name_range) by {
        assert(names_a_token(tv, d.requires[i].name, d.requires[i].name_range));
        let k = choose|k: int| 0 <= k < tv.len() && is_symbol_spec(#[trigger] tv[k]) && tv[k].text == d.requires[i].name && tv[k].range == d.requires[i].name_range;
        assert(tv[k] == lex_spec(source)[k]);
    }
}

/// A text is the source's slice at a byte range: the characters between two
/// positions whose byte offsets bound the range.
pub open spec fn is_source_slice(source: Seq<char>, text: Seq<char>, r: TextRange) -> bool {
    exists|a: int, b: int|
        0 <= a <= b <= source.len() && #[trigger] source.subrange(a, b) == text && r.start == crate::syntax::byte_at(source, a)
            && r.end == crate::syntax::byte_at(source, b)
}

proof fn symbol_names_are_tokens(uri: Seq<char>, source: Seq<char>)
    ensures
        symbols_name_tokens(lex_spec(source), document_symbols_spec(uri, source)),
{
    let parsed = parse_document_spec(uri, source);
    let tv = parsed.tokens;
    assert(tv == lex_spec(source));
    let model = lower_document_spec(uri, parsed).0;
    let target = match parsed.syntax {
        Some(syn) => specialize_target_spec(syn.body, model_references_spec(parsed.tokens)),
        None => None,
    };
    let base = base_symbols(uri, source, parsed.kind, parsed.tokens, target);
    let sig = crate::completion::significant(tv);
    lemma_significant_subset(tv);
    lemma_references_name_tokens(sig, tv, sig.len() as int);
    assert(symbols_name_tokens(tv, base));
    match parsed.syntax {
        None => {},
        Some(syn) => {
            let stmts = syn.body.statements();
            lemma_symbols_upto_names(source, tv, model, base, stmts, stmts.len() as int);
        },
    }
}

fn definition_range(tokens: &[Token]) -> (r: TextRange)
    ensures
        r == definition_range_spec(tokens_view(tokens@)),
{
    let ghost tv = tokens_view(tokens@);
    let mut i: usize = 0;
    while i < tokens.len()
        invariant
            i <= tokens@.len(),
            tv == tokens_view(tokens@),
            first_non_trivia_from(tv, 0, tv.len() as int) == first_non_trivia_from(tv, i as int, tv.len() as int),
        decreases tokens@.len() - i,
    {
        assert(tv[i as int] == tokens@[i as int]@);
        if !is_trivia(tokens[i].kind) {
            return tokens[i].range;
        }
        i = i + 1;
    }
    TextRange { start: 0, end: 0 }
}

impl DocumentSymbols {
    fn add_port(&mut self, port: PortSymbol, d: PortDirection, st: TextRange)
        ensures
            final(self)@ == (match d {
                PortDirection::Provided => DocumentSymbolsView {
                    provides: old(self)@.provides.push(port@),
                    declared_units: units_with(old(self)@.declared_units, port@.unit, st),
                    ..old(self)@
                },
                PortDirection::Required => DocumentSymbolsView {
                    requires: old(self)@.requires.push(port@),
                    declared_units: units_with(old(self)@.declared_units, port@.unit, st),
                    ..old(self)@
                },
            }),
    {
        self.add_unit(&port.unit, st);
        match d {
            PortDirection::Provided => {
                proof {
                    lemma_views_push(self.provides@, port);
                }
                self.provides.push(port);
            },
            PortDirection::Required => {
                proof {
                    lemma_views_push(self.requires@, port);
                }
                self.requires.push(port);
            },
        }
    }

    fn add_unit(&mut self, unit: &Option<SymbolText>, st: TextRange)
        ensures
            final(self)@ == (DocumentSymbolsView {
                declared_units: units_with(old(self)@.declared_units, opt_symbol_text(*unit), st),
                ..old(self)@
            }),
    {
        if let Some(u) = unit {
            let d = DeclaredUnit { name: u.text.clone(), range: u.range, declaration_range: st };
            proof {
                lemma_views_push(self.declared_units@, d);
            }
            self.declared_units.push(d);
        }
    }

    fn add_statement(
        &mut self,
        index: &LineIndex,
        tokens: &[Token],
        model: &Option<SemanticModel>,
        statement: &Statement,
    )
        requires
            index.wf(),
        ensures
            final(self)@ == symbols_step(
                index@,
                tokens_view(tokens@),
                opt_model_view(*model),
                old(self)@,
                statement@,
            ),
    {
        let st = statement.range;
        let ts = statement_tokens(tokens, st);
        match statement.kind {
            StatementKind::Provides => {
                if let Some(mut port) = port_symbol(index, st, ts.as_slice()) {
                    port.poset = semantic_port_poset(model, PortDirection::Provided, port.name.as_str());
                    self.add_port(port, PortDirection::Provided, st);
                }
            },
            StatementKind::Requires => {
                if let Some(mut port) = port_symbol(index, st, ts.as_slice()) {
                    port.poset = semantic_port_poset(model, PortDirection::Required, port.name.as_str());
                    self.add_port(port, PortDirection::Required, st);
                }
            },
            StatementKind::Instance => {
                if let Some(b) = instance_binding(st, ts.as_slice()) {
                    proof {
                        lemma_views_push(self.instances@, b);
                    }
                    self.instances.push(b);
                }
            },
            StatementKind::ImplementedBy => {
                if let Some(b) = resource_binding(st, ts.as_slice()) {
                    proof {
                        lemma_views_push(self.resource_bindings@, b);
                    }
                    self.resource_bindings.push(b);
                }
            },
            StatementKind::Constraint => {
                if let Some(c) = relation_constraint(index, st, ts.as_slice()) {
                    self.relations.push(c);
                }
            },
            StatementKind::Assignment => {
                if let Some(a) = assignment_symbol(index, st, ts.as_slice()) {
                    self.add_unit(&a.unit, st);
                    proof {
                        lemma_views_push(self.assignments@, a);
                    }
                    self.assignments.push(a);
                }
            },
            _ => {},
        }
    }

    /// Reads the ports, assignments, instances, model references, resource
    /// bindings, declared units, relations, imports and specialization
    /// target of a document.
    pub fn parse(uri: &str, source: &str) -> (r: DocumentSymbols)
        ensures
            r@ == document_symbols_spec(uri@, source@),
    {
        let source_id = SourceId::new(uri);
        let parsed = parse_document(source_id.duplicate(), source);
        let lowered = lower_document(source_id, &parsed);
        let model = lowered.0;
        let index = LineIndex::new(source);
        let ghost tv = tokens_view(parsed.tokens@);
        let references = model_references(parsed.tokens.as_slice());
        let target = match &parsed.syntax {
            Some(syntax) => specialize_target(&syntax.body, &references),
            None => None,
        };
        let ghost base = base_symbols(uri@, source@, parsed.kind, tv, opt_model_reference(target));
        let mut symbols = DocumentSymbols {
            uri: uri.to_owned(),
            source: source.to_owned(),
            kind: parsed.kind,
            definition_range: definition_range(parsed.tokens.as_slice()),
            provides: Vec::new(),
            requires: Vec::new(),
            assignments: Vec::new(),
            instances: Vec::new(),
            model_references: references,
            resource_bindings: Vec::new(),
            declared_units: Vec::new(),
            relations: Vec::new(),
            specialize_target: target,
            imports: imports(parsed.tokens.as_slice()),
        };
        assert(symbols@ =~= base);
        match &parsed.syntax {
            None => symbols,
            Some(syntax) => {
                let statements = syntax.body.statements();
                let ghost sv = statements_view(statements@);
                let mut i: usize = 0;
                while i < statements.len()
                    invariant
                        i <= statements@.len(),
                        index.wf(),
                        index@ == source@,
                        sv == statements_view(statements@),
                        tv == tokens_view(parsed.tokens@),
                        symbols@ == symbols_upto(source@, tv, opt_model_view(model), base, sv, i as int),
                    decreases statements@.len() - i,
                {
                    symbols.add_statement(&index, parsed.tokens.as_slice(), &model, &statements[i]);
                    i = i + 1;
                }
                symbols
            },
        }
    }
}

} // verus!
