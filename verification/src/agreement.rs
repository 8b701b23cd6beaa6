//! Units of relation sides across a project: the dimension factors of a
//! unit text, the unit an expression has from the ports, assignments and
//! quantities it names, and the diagnostics where two sides disagree.
//!
//! Exponents are `i32` and add and multiply with wrap-around.

use vstd::prelude::*;
use crate::project::first_not_below;
use crate::text::{chars_of, join, join_labels, push_chars, remove_whitespace, str_eq, string_from_chars, trim, trim_chars};
use crate::units::{base_and_exponent_spec, factor_label, is_unitless_word};
use crate::diagnostic::Severity;
use crate::lookup::{assignment_with_name, port_named_spec, InstanceScopedReferenceView};
use crate::poset::{PosetRef, PosetView};
use crate::project::{
    instance_with_name, model_document_spec, resolve_spec, IndexedDocumentView, ProjectDiagnosticView,
};
use crate::source::TextRange;
use crate::symbols::{
    is_symbol_spec, poset_unit_spec, range_chars, trim_range_spec, matching_close_from, tokens_within,
    DocumentSymbolsView, PortDirection, PortSymbolView,
};
use crate::syntax::{dec, lex_spec, text_is, tokens_view, Token, TokenKind, TokenView};
use crate::line_index::LineIndex;
use crate::project::{ProjectDiagnostic, ProjectSymbolIndex};
use crate::symbols::{lemma_views_push, views, DocumentSymbols, PortSymbol};

verus! {

// ---------------------------------------------------------------------------
// Factors
// ---------------------------------------------------------------------------

/// Base factors of an atom for relation checks: derived units expand into
/// `kg`, `m`, `s`, `rad` and `USD`; other atoms stand for themselves.
pub open spec fn atom_factors_spec(atom: Seq<char>) -> Seq<(Seq<char>, i32)> {
    let t = trim(atom);
    if t == "$"@ {
        seq![("USD"@, 1i32)]
    } else if t == "N"@ {
        seq![("kg"@, 1i32), ("m"@, 1i32), ("s"@, -2i32)]
    } else if t == "Nm"@ {
        seq![("kg"@, 1i32), ("m"@, 2i32), ("s"@, -2i32)]
    } else if t == "W"@ {
        seq![("kg"@, 1i32), ("m"@, 2i32), ("s"@, -3i32)]
    } else if t == "J"@ || t == "kJ"@ || t == "Wh"@ || t == "kWh"@ {
        seq![("kg"@, 1i32), ("m"@, 2i32), ("s"@, -2i32)]
    } else if t == "g"@ || t == "mg"@ {
        seq![("kg"@, 1i32)]
    } else if t == "deg"@ || t == "degree"@ || t == "degrees"@ || t == "°"@ {
        seq![("rad"@, 1i32)]
    } else if t == "h"@ || t == "hr"@ || t == "hour"@ || t == "hours"@ || t == "min"@ || t == "minute"@
        || t == "minutes"@ {
        seq![("s"@, 1i32)]
    } else {
        seq![(t, 1i32)]
    }
}

pub open spec fn pairs_view(v: Seq<(String, i32)>) -> Seq<(Seq<char>, i32)> {
    v.map_values(|p: (String, i32)| (p.0@, p.1))
}

pub open spec fn names_of(fs: Seq<(Seq<char>, i32)>) -> Seq<Seq<char>> {
    fs.map_values(|p: (Seq<char>, i32)| p.0)
}

fn pair(name: &str, e: i32) -> (r: (String, i32))
    ensures
        r.0@ == name@,
        r.1 == e,
{
    (name.to_owned(), e)
}

/// The base factors of an atom.
pub fn dimension_unit_atom_factors(atom: &str) -> (r: Vec<(String, i32)>)
    ensures
        pairs_view(r@) == atom_factors_spec(atom@),
{
    let chars = chars_of(atom);
    let t = trim_chars(chars.as_slice());
    let ts = string_from_chars(t.as_slice());
    let t = ts.as_str();
    let r: Vec<(String, i32)> = if str_eq(t, "$") {
        vec![pair("USD", 1)]
    } else if str_eq(t, "N") {
        vec![pair("kg", 1), pair("m", 1), pair("s", -2)]
    } else if str_eq(t, "Nm") {
        vec![pair("kg", 1), pair("m", 2), pair("s", -2)]
    } else if str_eq(t, "W") {
        vec![pair("kg", 1), pair("m", 2), pair("s", -3)]
    } else if str_eq(t, "J") || str_eq(t, "kJ") || str_eq(t, "Wh") || str_eq(t, "kWh") {
        vec![pair("kg", 1), pair("m", 2), pair("s", -2)]
    } else if str_eq(t, "g") || str_eq(t, "mg") {
        vec![pair("kg", 1)]
    } else if str_eq(t, "deg") || str_eq(t, "degree") || str_eq(t, "degrees") || str_eq(t, "°") {
        vec![pair("rad", 1)]
    } else if str_eq(t, "h") || str_eq(t, "hr") || str_eq(t, "hour") || str_eq(t, "hours") || str_eq(t, "min")
        || str_eq(t, "minute") || str_eq(t, "minutes") {
        vec![pair("s", 1)]
    } else {
        vec![pair(t, 1)]
    };
    assert(pairs_view(r@) =~= atom_factors_spec(atom@));
    r
}

/// A factor added in its place among factors ordered by name: an exponent
/// that reaches zero drops the factor; an empty name or a zero exponent
/// changes nothing.
pub open spec fn add_factor_spec(fs: Seq<(Seq<char>, i32)>, name: Seq<char>, e: i32) -> Seq<(Seq<char>, i32)> {
    if name.len() == 0 || e == 0 {
        fs
    } else {
        let i = first_not_below(names_of(fs), name, 0);
        if i < fs.len() && fs[i].0 == name {
            let t = fs[i].1.wrapping_add(e);
            if t == 0 {
                fs.remove(i)
            } else {
                fs.update(i, (name, t))
            }
        } else {
            fs.insert(i, (name, e))
        }
    }
}

/// Adds each factor of `atoms` with its exponent times `m`.
pub open spec fn add_all_spec(fs: Seq<(Seq<char>, i32)>, atoms: Seq<(Seq<char>, i32)>, m: i32, k: int) -> Seq<
    (Seq<char>, i32),
>
    decreases k,
{
    if k <= 0 {
        fs
    } else {
        let p = add_all_spec(fs, atoms, m, k - 1);
        add_factor_spec(p, atoms[k - 1].0, m.wrapping_mul(atoms[k - 1].1))
    }
}

/// One factor of a unit text applied with a sign: its trimmed text, unless
/// it says "no unit", split into base and exponent, and the base's factors
/// added.
pub open spec fn apply_factor_spec(fs: Seq<(Seq<char>, i32)>, raw: Seq<char>, sign: i32) -> Seq<(Seq<char>, i32)> {
    let t = trim(raw);
    if is_unitless_word(t) {
        fs
    } else {
        let (b, e) = base_and_exponent_spec(t);
        let atoms = atom_factors_spec(b);
        add_all_spec(fs, atoms, sign.wrapping_mul(e as i32), atoms.len() as int)
    }
}

pub open spec fn is_product_char(c: char) -> bool {
    c == '*' || c == '·' || c == '⋅'
}

/// After the first `i` characters of a unit text: the factors, the factor
/// being read, and the sign it goes in with.
pub open spec fn scan_spec(cs: Seq<char>, i: int) -> (Seq<(Seq<char>, i32)>, Seq<char>, i32)
    decreases i,
{
    if i <= 0 {
        (Seq::empty(), Seq::empty(), 1i32)
    } else {
        let (fs, cur, op) = scan_spec(cs, i - 1);
        let c = cs[i - 1];
        if is_product_char(c) {
            (apply_factor_spec(fs, cur, op), Seq::empty(), 1i32)
        } else if c == '/' {
            (apply_factor_spec(fs, cur, op), Seq::empty(), -1i32)
        } else {
            (fs, cur.push(c), op)
        }
    }
}

/// The factors of a unit text: whitespace removed, factors separated by
/// `*`, `·` or `⋅` (numerator) and `/` (denominator, for the next factor).
pub open spec fn from_text_spec(text: Seq<char>) -> Seq<(Seq<char>, i32)> {
    let cs = remove_whitespace(text);
    let (fs, cur, op) = scan_spec(cs, cs.len() as int);
    apply_factor_spec(fs, cur, op)
}

/// The factors of `a` with those of `b` added, their exponents times `sign`.
pub open spec fn extend_spec(a: Seq<(Seq<char>, i32)>, b: Seq<(Seq<char>, i32)>, sign: i32, k: int) -> Seq<
    (Seq<char>, i32),
>
    decreases k,
{
    if k <= 0 {
        a
    } else {
        add_factor_spec(extend_spec(a, b, sign, k - 1), b[k - 1].0, sign.wrapping_mul(b[k - 1].1))
    }
}

/// Exponent shown for a factor: itself in the numerator, its negation in
/// the denominator.
pub open spec fn shown_exponent(e: i32, positive: bool) -> i32 {
    if positive {
        e
    } else if e == i32::MIN {
        e
    } else {
        (-e) as i32
    }
}

pub open spec fn labels_upto(fs: Seq<(Seq<char>, i32)>, positive: bool, k: int) -> Seq<Seq<char>>
    decreases k,
{
    if k <= 0 {
        Seq::empty()
    } else {
        let p = labels_upto(fs, positive, k - 1);
        let e = shown_exponent(fs[k - 1].1, positive);
        if e > 0 {
            p.push(factor_label(fs[k - 1].0, e as int))
        } else {
            p
        }
    }
}

/// The label of factors: numerator factors joined by `*`, then `/` and the
/// denominator factors joined by `/` (`1/...` with no numerator), or
/// `unitless`.
pub open spec fn label_spec(fs: Seq<(Seq<char>, i32)>) -> Seq<char> {
    let n = labels_upto(fs, true, fs.len() as int);
    let d = labels_upto(fs, false, fs.len() as int);
    if n.len() == 0 && d.len() == 0 {
        "unitless"@
    } else if d.len() == 0 {
        join(n, "*"@)
    } else if n.len() == 0 {
        "1/"@ + join(d, "/"@)
    } else {
        join(n, "*"@) + "/"@ + join(d, "/"@)
    }
}

/// Factors as the unit check keeps them: names in strictly increasing
/// order, none empty, every exponent nonzero.
pub open spec fn factors_wf(fs: Seq<(Seq<char>, i32)>) -> bool {
    &&& crate::project::strictly_sorted(names_of(fs))
    &&& forall|i: int| 0 <= i < fs.len() ==> (#[trigger] fs[i]).1 != 0 && fs[i].0.len() > 0
}

/// Adding a factor keeps factors as the check keeps them.
pub proof fn lemma_add_factor_wf(fs: Seq<(Seq<char>, i32)>, name: Seq<char>, e: i32)
    requires
        factors_wf(fs),
    ensures
        factors_wf(add_factor_spec(fs, name, e)),
{
    if name.len() == 0 || e == 0 {
        return;
    }
    let names = names_of(fs);
    let i = first_not_below(names, name, 0);
    crate::project::lemma_first_not_below(names, name, 0);
    if i < fs.len() && fs[i].0 == name {
        let t = fs[i].1.wrapping_add(e);
        if t == 0 {
            let r = fs.remove(i);
            assert(names_of(r) =~= names.remove(i));
            assert forall|a: int, b: int| 0 <= a < b < names_of(r).len() implies crate::units::seq_lt(
                #[trigger] names_of(r)[a],
                #[trigger] names_of(r)[b],
            ) by {
                let a2 = if a < i { a } else { a + 1 };
                let b2 = if b < i { b } else { b + 1 };
                assert(names_of(r)[a] == names[a2]);
                assert(names_of(r)[b] == names[b2]);
            }
            assert forall|k: int| 0 <= k < r.len() implies (#[trigger] r[k]).1 != 0 && r[k].0.len() > 0 by {
                if k < i {
                    assert(r[k] == fs[k]);
                } else {
                    assert(r[k] == fs[k + 1]);
                }
            }
        } else {
            let r = fs.update(i, (name, t));
            assert(names_of(r) =~= names);
            assert forall|k: int| 0 <= k < r.len() implies (#[trigger] r[k]).1 != 0 && r[k].0.len() > 0 by {
                if k != i {
                    assert(r[k] == fs[k]);
                }
            }
        }
    } else {
        let r = fs.insert(i, (name, e));
        assert(names_of(r) =~= names.insert(i, name));
        crate::project::lemma_insert_unique(names, name);
        if i < names.len() {
            assert(names[i] == fs[i].0);
        }
        assert(crate::project::insert_unique(names, name) == names.insert(i, name));
        assert forall|k: int| 0 <= k < r.len() implies (#[trigger] r[k]).1 != 0 && r[k].0.len() > 0 by {
            if k < i {
                assert(r[k] == fs[k]);
            } else if k > i {
                assert(r[k] == fs[k - 1]);
            }
        }
    }
}

proof fn lemma_add_all_wf(fs: Seq<(Seq<char>, i32)>, atoms: Seq<(Seq<char>, i32)>, m: i32, k: int)
    requires
        factors_wf(fs),
    ensures
        factors_wf(add_all_spec(fs, atoms, m, k)),
    decreases k,
{
    if k > 0 {
        lemma_add_all_wf(fs, atoms, m, k - 1);
        lemma_add_factor_wf(add_all_spec(fs, atoms, m, k - 1), atoms[k - 1].0, m.wrapping_mul(atoms[k - 1].1));
    }
}

proof fn lemma_apply_factor_wf(fs: Seq<(Seq<char>, i32)>, raw: Seq<char>, sign: i32)
    requires
        factors_wf(fs),
    ensures
        factors_wf(apply_factor_spec(fs, raw, sign)),
{
    let t = trim(raw);
    if !is_unitless_word(t) {
        let (b, e) = base_and_exponent_spec(t);
        let atoms = atom_factors_spec(b);
        lemma_add_all_wf(fs, atoms, sign.wrapping_mul(e as i32), atoms.len() as int);
    }
}

proof fn lemma_scan_wf(cs: Seq<char>, i: int)
    ensures
        factors_wf(scan_spec(cs, i).0),
    decreases i,
{
    if i <= 0 {
        assert(names_of(Seq::<(Seq<char>, i32)>::empty()) =~= Seq::<Seq<char>>::empty());
    } else {
        lemma_scan_wf(cs, i - 1);
        let (fs, cur, op) = scan_spec(cs, i - 1);
        lemma_apply_factor_wf(fs, cur, op);
    }
}

/// The factors of any unit text are kept in order of their names, each
/// name once, with no zero exponent: a unit has one list of factors.
pub proof fn unit_factors_are_canonical(text: Seq<char>)
    ensures
        factors_wf(from_text_spec(text)),
{
    let cs = remove_whitespace(text);
    lemma_scan_wf(cs, cs.len() as int);
    let (fs, cur, op) = scan_spec(cs, cs.len() as int);
    lemma_apply_factor_wf(fs, cur, op);
}

/// Multiplying or dividing units keeps their factors in that form.
pub proof fn unit_products_are_canonical(a: Seq<(Seq<char>, i32)>, b: Seq<(Seq<char>, i32)>, sign: i32, k: int)
    requires
        factors_wf(a),
    ensures
        factors_wf(extend_spec(a, b, sign, k)),
    decreases k,
{
    if k > 0 {
        unit_products_are_canonical(a, b, sign, k - 1);
        lemma_add_factor_wf(extend_spec(a, b, sign, k - 1), b[k - 1].0, sign.wrapping_mul(b[k - 1].1));
    }
}

/// The dimension factors of a unit: names in order, each with a nonzero
/// exponent.
#[derive(Debug, PartialEq, Eq)]
pub struct UnitFactors {
    pub factors: Vec<(String, i32)>,
}

impl View for UnitFactors {
    type V = Seq<(Seq<char>, i32)>;

    open spec fn view(&self) -> Seq<(Seq<char>, i32)> {
        pairs_view(self.factors@)
    }
}

impl UnitFactors {
    /// No factor: the unit of plain numbers.
    pub fn one() -> (r: UnitFactors)
        ensures
            r@ == Seq::<(Seq<char>, i32)>::empty(),
    {
        let r = UnitFactors { factors: Vec::new() };
        assert(r@ =~= Seq::<(Seq<char>, i32)>::empty());
        r
    }

    /// The same factors.
    pub fn copy(&self) -> (r: UnitFactors)
        ensures
            r@ == self@,
    {
        let mut v: Vec<(String, i32)> = Vec::new();
        let mut i: usize = 0;
        while i < self.factors.len()
            invariant
                i <= self.factors@.len(),
                pairs_view(v@) == pairs_view(self.factors@).take(i as int),
            decreases self.factors@.len() - i,
        {
            let p = (self.factors[i].0.clone(), self.factors[i].1);
            proof {
                assert(pairs_view(v@.push(p)) =~= pairs_view(v@).push((p.0@, p.1)));
                assert(pairs_view(self.factors@).take(i + 1) =~= pairs_view(self.factors@).take(i as int).push(
                    pairs_view(self.factors@)[i as int],
                ));
            }
            v.push(p);
            i = i + 1;
        }
        assert(pairs_view(self.factors@).take(self.factors@.len() as int) =~= pairs_view(self.factors@));
        UnitFactors { factors: v }
    }

    /// Whether two units have the same factors.
    pub fn same(&self, other: &UnitFactors) -> (r: bool)
        ensures
            r == (self@ == other@),
    {
        if self.factors.len() != other.factors.len() {
            assert(self@.len() != other@.len());
            return false;
        }
        let mut i: usize = 0;
        while i < self.factors.len()
            invariant
                i <= self.factors@.len(),
                self.factors@.len() == other.factors@.len(),
                forall|k: int| 0 <= k < i ==> #[trigger] self@[k] == other@[k],
            decreases self.factors@.len() - i,
        {
            assert(self@[i as int] == (self.factors@[i as int].0@, self.factors@[i as int].1));
            assert(other@[i as int] == (other.factors@[i as int].0@, other.factors@[i as int].1));
            if self.factors[i].1 != other.factors[i].1 || !str_eq(
                self.factors[i].0.as_str(),
                other.factors[i].0.as_str(),
            ) {
                return false;
            }
            i = i + 1;
        }
        assert(self@ =~= other@);
        true
    }

    /// Adds an exponent to a factor.
    pub fn add_factor(&mut self, name: &str, e: i32)
        ensures
            final(self)@ == add_factor_spec(old(self)@, name@, e),
    {
        let xc = chars_of(name);
        if xc.len() == 0 || e == 0 {
            return ;
        }
        let ghost fs = self@;
        let ghost names = names_of(fs);
        let mut i: usize = 0;
        while i < self.factors.len()
            invariant
                i <= self.factors@.len(),
                fs == pairs_view(self.factors@),
                names == names_of(fs),
                names.len() == self.factors@.len(),
                xc@ == name@,
                first_not_below(names, name@, 0) == first_not_below(names, name@, i as int),
            ensures
                i <= self.factors@.len(),
                first_not_below(names, name@, 0) == first_not_below(names, name@, i as int),
                i < self.factors@.len() ==> !crate::units::seq_lt(names[i as int], name@),
            decreases self.factors@.len() - i,
        {
            assert(names[i as int] == self.factors@[i as int].0@);
            let nc = chars_of(self.factors[i].0.as_str());
            if !crate::units::key_lt(nc.as_slice(), xc.as_slice()) {
                break;
            }
            i = i + 1;
        }
        proof {
            if i < self.factors@.len() {
                assert(names[i as int] == self.factors@[i as int].0@);
            }
        }
        assert(first_not_below(names, name@, 0) == i);
        if i < self.factors.len() && str_eq(self.factors[i].0.as_str(), name) {
            assert(fs[i as int].0 == name@);
            let t = self.factors[i].1.wrapping_add(e);
            if t == 0 {
                self.factors.remove(i);
                assert(self@ =~= fs.remove(i as int));
            } else {
                self.factors.set(i, (name.to_owned(), t));
                assert(self@ =~= fs.update(i as int, (name@, t)));
            }
        } else {
            self.factors.insert(i, (name.to_owned(), e));
            assert(self@ =~= fs.insert(i as int, (name@, e)));
        }
    }

    fn apply_factor(&mut self, raw: &[char], sign: i32)
        ensures
            final(self)@ == apply_factor_spec(old(self)@, raw@, sign),
    {
        let token = trim_chars(raw);
        if crate::units::is_unitless(token.as_slice()) {
            return ;
        }
        let (base, exponent) = crate::units::unit_base_and_exponent(token.as_slice());
        let base_text = string_from_chars(base.as_slice());
        let atoms = dimension_unit_atom_factors(base_text.as_str());
        let ghost av = pairs_view(atoms@);
        let ghost fs = self@;
        let m = sign.wrapping_mul(exponent);
        assert(m == sign.wrapping_mul(base_and_exponent_spec(trim(raw@)).1 as i32));
        let mut k: usize = 0;
        while k < atoms.len()
            invariant
                k <= atoms@.len(),
                av == pairs_view(atoms@),
                self@ == add_all_spec(fs, av, m, k as int),
            decreases atoms@.len() - k,
        {
            assert(av[k as int] == (atoms@[k as int].0@, atoms@[k as int].1));
            self.add_factor(atoms[k].0.as_str(), m.wrapping_mul(atoms[k].1));
            k = k + 1;
        }
    }

    /// The factors of a unit text.
    pub fn from_text(text: &str) -> (r: UnitFactors)
        ensures
            r@ == from_text_spec(text@),
    {
        let chars = chars_of(text);
        let cs = crate::text::remove_whitespace_chars(chars.as_slice());
        let mut unit = UnitFactors::one();
        let mut operator: i32 = 1;
        let mut current: Vec<char> = Vec::new();
        let mut i: usize = 0;
        while i < cs.len()
            invariant
                i <= cs@.len(),
                cs@ == remove_whitespace(text@),
                (unit@, current@, operator) == scan_spec(cs@, i as int),
            decreases cs@.len() - i,
        {
            let ch = cs[i];
            if ch == '*' || ch == '·' || ch == '⋅' {
                unit.apply_factor(current.as_slice(), operator);
                current = Vec::new();
                operator = 1;
            } else if ch == '/' {
                unit.apply_factor(current.as_slice(), operator);
                current = Vec::new();
                operator = -1;
            } else {
                current.push(ch);
            }
            proof {
                assert(current@ == scan_spec(cs@, i + 1).1);
            }
            i = i + 1;
        }
        unit.apply_factor(current.as_slice(), operator);
        unit
    }

    fn extend(&mut self, right: &UnitFactors, sign: i32)
        ensures
            final(self)@ == extend_spec(old(self)@, right@, sign, right@.len() as int),
    {
        let ghost a = self@;
        let mut k: usize = 0;
        while k < right.factors.len()
            invariant
                k <= right.factors@.len(),
                self@ == extend_spec(a, right@, sign, k as int),
            decreases right.factors@.len() - k,
        {
            assert(right@[k as int] == (right.factors@[k as int].0@, right.factors@[k as int].1));
            self.add_factor(right.factors[k].0.as_str(), sign.wrapping_mul(right.factors[k].1));
            k = k + 1;
        }
    }

    /// The product of two units.
    pub fn multiply(&self, right: &UnitFactors) -> (r: UnitFactors)
        ensures
            r@ == extend_spec(self@, right@, 1i32, right@.len() as int),
    {
        let mut product = self.copy();
        product.extend(right, 1);
        product
    }

    /// The quotient of two units.
    pub fn divide(&self, right: &UnitFactors) -> (r: UnitFactors)
        ensures
            r@ == extend_spec(self@, right@, -1i32, right@.len() as int),
    {
        let mut quotient = self.copy();
        quotient.extend(right, -1);
        quotient
    }

    fn factor_labels(&self, positive: bool) -> (r: Vec<Vec<char>>)
        ensures
            r@.map_values(|v: Vec<char>| v@) == labels_upto(self@, positive, self@.len() as int),
    {
        let ghost fs = self@;
        let mut out: Vec<Vec<char>> = Vec::new();
        assert(out@.map_values(|v: Vec<char>| v@) =~= Seq::<Seq<char>>::empty());
        let mut i: usize = 0;
        while i < self.factors.len()
            invariant
                i <= self.factors@.len(),
                fs == self@,
                out@.map_values(|v: Vec<char>| v@) == labels_upto(fs, positive, i as int),
            decreases self.factors@.len() - i,
        {
            assert(fs[i as int] == (self.factors@[i as int].0@, self.factors@[i as int].1));
            let e0 = self.factors[i].1;
            let e = if positive {
                e0
            } else if e0 == i32::MIN {
                e0
            } else {
                -e0
            };
            if e > 0 {
                let name = chars_of(self.factors[i].0.as_str());
                let label = crate::units::unit_factor_label(name.as_slice(), e as i128);
                let ghost before = out@.map_values(|v: Vec<char>| v@);
                out.push(label);
                assert(out@.map_values(|v: Vec<char>| v@) =~= before.push(label@));
            }
            i = i + 1;
        }
        out
    }

    /// The label of the unit.
    pub fn label(&self) -> (r: String)
        ensures
            r@ == label_spec(self@),
    {
        let numerator = self.factor_labels(true);
        let denominator = self.factor_labels(false);
        if numerator.len() == 0 && denominator.len() == 0 {
            return "unitless".to_owned();
        }
        let mut out: Vec<char> = Vec::new();
        if denominator.len() == 0 {
            join_labels(&numerator, "*", &mut out);
        } else if numerator.len() == 0 {
            push_chars(&mut out, "1/");
            join_labels(&denominator, "/", &mut out);
        } else {
            join_labels(&numerator, "*", &mut out);
            push_chars(&mut out, "/");
            join_labels(&denominator, "/", &mut out);
        }
        assert(out@ =~= label_spec(self@));
        string_from_chars(out.as_slice())
    }
}

// ---------------------------------------------------------------------------
// The unit of an expression
// ---------------------------------------------------------------------------

/// What the unit check knows of an expression: a label for messages, its
/// dimension factors, the unit text and poset it was given, whether it is
/// a scalar (not a product), and its range.
pub struct ExprUnitView {
    pub label: Seq<char>,
    pub unit: Seq<(Seq<char>, i32)>,
    pub unit_text: Option<Seq<char>>,
    pub poset: Option<PosetView>,
    pub scalar: bool,
    pub range: TextRange,
}

/// The unit of a quantity or assignment written with a unit text.
pub open spec fn from_unit_spec(label: Seq<char>, unit: Seq<char>, range: TextRange) -> ExprUnitView {
    ExprUnitView {
        label,
        unit: from_text_spec(unit),
        unit_text: Some(unit),
        poset: Some(PosetView::Unit(crate::expression::parse_unit_spec(unit))),
        scalar: true,
        range,
    }
}

pub open spec fn port_unit_text_spec(port: PortSymbolView) -> Option<Seq<char>> {
    let declared = match port.unit {
        Some(u) => Some(u.text),
        None => None,
    };
    match port.poset {
        Some(p) => match poset_unit_spec(p) {
            Some(t) => Some(t),
            None => declared,
        },
        None => declared,
    }
}

/// The unit of a port: the text of the poset the model gives it, else the
/// unit it was declared with.
pub open spec fn from_port_spec(label: Seq<char>, range: TextRange, port: PortSymbolView) -> ExprUnitView {
    let unit_text = port_unit_text_spec(port);
    ExprUnitView {
        label,
        unit: match unit_text {
            Some(t) => from_text_spec(t),
            None => Seq::empty(),
        },
        unit_text,
        poset: port.poset,
        scalar: match port.poset {
            Some(p) => !(p is Product),
            None => true,
        },
        range,
    }
}

/// First field at or after `i` with this name.
pub open spec fn field_index(fields: Seq<(Seq<char>, PosetView)>, name: Seq<char>, i: int) -> Option<int>
    decreases fields.len() - i,
{
    if i < 0 || i >= fields.len() {
        None
    } else if fields[i].0 == name {
        Some(i)
    } else {
        field_index(fields, name, i + 1)
    }
}

/// The poset of a field of a product poset.
pub open spec fn field_poset_spec(poset: Option<PosetView>, field: Seq<char>) -> Option<PosetView> {
    match poset {
        Some(PosetView::Product(fields)) => match field_index(fields, field, 0) {
            Some(i) => Some(fields[i].1),
            None => None,
        },
        _ => None,
    }
}

pub open spec fn merge_range_spec(l: TextRange, r: TextRange) -> TextRange {
    TextRange {
        start: if l.start <= r.start {
            l.start
        } else {
            r.start
        },
        end: if l.end >= r.end {
            l.end
        } else {
            r.end
        },
    }
}

/// Where a parse stands: the next token and the diagnostics so far.
pub struct PState {
    pub pos: int,
    pub diags: Seq<ProjectDiagnosticView>,
}

pub open spec fn at(st: PState, pos: int) -> PState {
    PState { pos, diags: st.diags }
}

pub open spec fn peek_text(ts: Seq<TokenView>, pos: int, lit: Seq<char>) -> bool {
    0 <= pos < ts.len() && ts[pos].text == lit
}

pub open spec fn peek_word(ts: Seq<TokenView>, pos: int) -> bool {
    0 <= pos < ts.len() && is_symbol_spec(ts[pos])
}

/// A token that can be an atom of a unit written after a number.
pub open spec fn is_unit_atom_token(t: TokenView) -> bool {
    !(t.text == "provided"@ || t.text == "required"@ || t.text == "by"@ || t.text == "sum"@ || t.text
        == "constant"@ || t.text == "true"@ || t.text == "false"@) && (is_symbol_spec(t) || t.kind
        == TokenKind::Number || t.text == "$"@ || t.text == "°"@)
}

pub open spec fn peek_unit_atom(ts: Seq<TokenView>, pos: int) -> bool {
    0 <= pos < ts.len() && is_unit_atom_token(ts[pos])
}

pub open spec fn direction_at(ts: Seq<TokenView>, pos: int) -> Option<PortDirection> {
    if peek_text(ts, pos, "provided"@) {
        Some(PortDirection::Provided)
    } else if peek_text(ts, pos, "required"@) {
        Some(PortDirection::Required)
    } else {
        None
    }
}

/// `*` or a name after `by`.
pub open spec fn selector_at(ts: Seq<TokenView>, pos: int) -> bool {
    peek_text(ts, pos, "*"@) || peek_word(ts, pos)
}

/// The unit of a port of this document.
pub open spec fn local_port_unit_spec(d: DocumentSymbolsView, dir: PortDirection, port: TokenView) -> Option<ExprUnitView> {
    match port_named_spec(d, dir, port.text) {
        Some(p) => Some(from_port_spec(port.text, port.range, p)),
        None => None,
    }
}

/// The unit of a port named through an instance of the project.
pub open spec fn instance_scoped_unit_spec(
    docs: Seq<IndexedDocumentView>,
    d: DocumentSymbolsView,
    rf: InstanceScopedReferenceView,
) -> Option<ExprUnitView> {
    match resolve_spec(docs, d, rf) {
        Some((_, port)) => Some(from_port_spec(rf.port_name, rf.port_range, port)),
        None => None,
    }
}

pub open spec fn reference_of(port: TokenView, instance: TokenView, dir: PortDirection) -> InstanceScopedReferenceView {
    InstanceScopedReferenceView {
        port_name: port.text,
        port_range: port.range,
        instance_name: instance.text,
        instance_range: instance.range,
        direction: dir,
    }
}

/// The unit of an assignment with a declared unit.
pub open spec fn assignment_unit_spec(d: DocumentSymbolsView, name: TokenView) -> Option<ExprUnitView> {
    match assignment_with_name(d.assignments, name.text, 0) {
        Some(i) => match d.assignments[i].unit {
            Some(u) => Some(from_unit_spec(name.text, u.text, name.range)),
            None => None,
        },
        None => None,
    }
}

/// The units of a port of this side and name on the models of the first
/// `k` instances that have one.
pub open spec fn wildcard_units(
    docs: Seq<IndexedDocumentView>,
    d: DocumentSymbolsView,
    dir: PortDirection,
    name: Seq<char>,
    k: int,
) -> Seq<Seq<(Seq<char>, i32)>>
    decreases k,
{
    if k <= 0 {
        Seq::empty()
    } else {
        let p = wildcard_units(docs, d, dir, name, k - 1);
        match d.instances[k - 1].model {
            None => p,
            Some(m) => match model_document_spec(docs, m.name) {
                None => p,
                Some(t) => match port_named_spec(docs[t].symbols, dir, name) {
                    None => p,
                    Some(port) => p.push(
                        match port.unit {
                            Some(u) => from_text_spec(u.text),
                            None => Seq::empty(),
                        },
                    ),
                },
            },
        }
    }
}

/// `sum port provided by *`: the unit the port has on every instance's
/// model, if they agree.
pub open spec fn wildcard_unit_spec(docs: Seq<IndexedDocumentView>, d: DocumentSymbolsView, dir: PortDirection, port: TokenView) -> Option<
    ExprUnitView,
> {
    let units = wildcard_units(docs, d, dir, port.text, d.instances.len() as int);
    if units.len() > 0 && (forall|i: int| 0 <= i < units.len() ==> #[trigger] units[i] == units[0]) {
        Some(
            ExprUnitView {
                label: port.text,
                unit: units[0],
                unit_text: None,
                poset: None,
                scalar: true,
                range: port.range,
            },
        )
    } else {
        None
    }
}

/// Where the unit after a number in brackets ends, and its text and the
/// range of the closing bracket; the position moves past the bracket even
/// when the unit is blank.
pub open spec fn bracket_unit_spec(s: Seq<char>, ts: Seq<TokenView>, p: int) -> (Option<(Seq<char>, TextRange)>, int) {
    if !peek_text(ts, p, "["@) {
        (None, p)
    } else {
        match matching_close_from(ts, "["@, "]"@, p, 0) {
            None => (None, p),
            Some(c) => {
                let r = trim_range_spec(s, TextRange { start: ts[p].range.end, end: ts[c].range.start });
                if r.start == r.end {
                    (None, c + 1)
                } else {
                    (Some((range_chars(s, r), ts[c].range)), c + 1)
                }
            },
        }
    }
}

/// The end of a unit written after a number: atoms joined by `^` exponents
/// and by `*`, `/`, `·` or `⋅`.
pub open spec fn trailing_end(ts: Seq<TokenView>, q: int) -> int
    decreases ts.len() - q,
{
    if q < 0 || q >= ts.len() {
        q
    } else if peek_text(ts, q, "^"@) || peek_text(ts, q, "^-"@) || peek_text(ts, q, "^+"@) {
        if peek_unit_atom(ts, q + 1) {
            trailing_end(ts, q + 2)
        } else {
            q
        }
    } else if (peek_text(ts, q, "*"@) || peek_text(ts, q, "/"@) || peek_text(ts, q, "·"@) || peek_text(ts, q, "⋅"@))
        && peek_unit_atom(ts, q + 1) {
        trailing_end(ts, q + 2)
    } else {
        q
    }
}

/// A unit written after a number without brackets.
pub open spec fn trailing_unit_spec(s: Seq<char>, ts: Seq<TokenView>, p: int) -> (Option<(Seq<char>, TextRange)>, int) {
    if !peek_unit_atom(ts, p) {
        (None, p)
    } else {
        let q = trailing_end(ts, p + 1);
        let r = TextRange { start: ts[p].range.start, end: ts[q - 1].range.end };
        (Some((range_chars(s, r), r)), q)
    }
}

/// A number with the unit after it, if any.
pub open spec fn quantity_spec(s: Seq<char>, ts: Seq<TokenView>, st: PState) -> (Option<ExprUnitView>, PState) {
    if !(0 <= st.pos < ts.len() && ts[st.pos].kind == TokenKind::Number) {
        (None, st)
    } else {
        let number = ts[st.pos];
        match bracket_unit_spec(s, ts, st.pos + 1) {
            (Some((u, r)), p2) => (
                Some(from_unit_spec(number.text, u, TextRange { start: number.range.start, end: r.end })),
                at(st, p2),
            ),
            (None, p2) => match trailing_unit_spec(s, ts, p2) {
                (Some((u, r)), p3) => (
                    Some(from_unit_spec(number.text, u, TextRange { start: number.range.start, end: r.end })),
                    at(st, p3),
                ),
                (None, p3) => (
                    Some(
                        ExprUnitView {
                            label: number.text,
                            unit: Seq::empty(),
                            unit_text: None,
                            poset: None,
                            scalar: true,
                            range: number.range,
                        },
                    ),
                    at(st, p3),
                ),
            },
        }
    }
}

/// Skips a model reference with its `:` and names, up to a `,` or `)`.
pub open spec fn skip_literal_from(ts: Seq<TokenView>, p: int) -> int
    decreases ts.len() - p,
{
    if p < 0 || p >= ts.len() {
        p
    } else if ts[p].text == ","@ || ts[p].text == ")"@ {
        p
    } else if ts[p].text == ":"@ || is_symbol_spec(ts[p]) {
        skip_literal_from(ts, p + 1)
    } else {
        p
    }
}

pub open spec fn skip_symbol_literal_spec(ts: Seq<TokenView>, p: int) -> int {
    skip_literal_from(ts, if peek_text(ts, p, "`"@) { p + 1 } else { p })
}

/// Skips to just past the bracket that closes an open one.
pub open spec fn skip_balanced_from(ts: Seq<TokenView>, p: int, open: Seq<char>, close: Seq<char>, depth: nat) -> int
    decreases ts.len() - p,
{
    if p < 0 || p >= ts.len() {
        p
    } else if ts[p].text == open {
        skip_balanced_from(ts, p + 1, open, close, depth + 1)
    } else if ts[p].text == close {
        if dec(depth) == 0 {
            p + 1
        } else {
            skip_balanced_from(ts, p + 1, open, close, dec(depth))
        }
    } else {
        skip_balanced_from(ts, p + 1, open, close, depth)
    }
}

/// `provided port` or `required port`, optionally `by instance`.
pub open spec fn prefix_port_spec(docs: Seq<IndexedDocumentView>, d: DocumentSymbolsView, ts: Seq<TokenView>, st: PState) -> (
    Option<ExprUnitView>,
    PState,
) {
    match direction_at(ts, st.pos) {
        None => (None, st),
        Some(dir) => {
            let p1 = st.pos + 1;
            if !peek_word(ts, p1) {
                (None, at(st, p1))
            } else {
                let port = ts[p1];
                let p2 = p1 + 1;
                if peek_text(ts, p2, "by"@) {
                    let p3 = p2 + 1;
                    if !selector_at(ts, p3) {
                        (None, at(st, p3))
                    } else if ts[p3].text == "*"@ {
                        (None, at(st, p3 + 1))
                    } else {
                        (instance_scoped_unit_spec(docs, d, reference_of(port, ts[p3], dir)), at(st, p3 + 1))
                    }
                } else {
                    (local_port_unit_spec(d, dir, port), at(st, p2))
                }
            }
        },
    }
}

/// A name: a call (skipped), `port provided by instance`, or an assignment.
pub open spec fn word_primary_spec(docs: Seq<IndexedDocumentView>, d: DocumentSymbolsView, ts: Seq<TokenView>, st: PState) -> (
    Option<ExprUnitView>,
    PState,
) {
    if !peek_word(ts, st.pos) {
        (None, st)
    } else {
        let name = ts[st.pos];
        let p1 = st.pos + 1;
        if peek_text(ts, p1, "("@) {
            (None, at(st, skip_balanced_from(ts, p1 + 1, "("@, ")"@, 1)))
        } else {
            match direction_at(ts, p1) {
                Some(dir) => {
                    let p2 = p1 + 1;
                    if !peek_text(ts, p2, "by"@) {
                        (None, at(st, p2))
                    } else {
                        let p3 = p2 + 1;
                        if !selector_at(ts, p3) {
                            (None, at(st, p3))
                        } else if ts[p3].text == "*"@ {
                            (None, at(st, p3 + 1))
                        } else {
                            (instance_scoped_unit_spec(docs, d, reference_of(name, ts[p3], dir)), at(st, p3 + 1))
                        }
                    }
                },
                None => (assignment_unit_spec(d, name), at(st, p1)),
            }
        }
    }
}

/// `sum port provided by instance`, or `by *` across all instances.
pub open spec fn aggregate_spec(docs: Seq<IndexedDocumentView>, d: DocumentSymbolsView, ts: Seq<TokenView>, st: PState) -> (
    Option<ExprUnitView>,
    PState,
) {
    let p1 = if peek_text(ts, st.pos, "sum"@) {
        st.pos + 1
    } else {
        st.pos
    };
    if !peek_word(ts, p1) {
        (None, at(st, p1))
    } else {
        let port = ts[p1];
        let p2 = p1 + 1;
        match direction_at(ts, p2) {
            None => (None, at(st, p2)),
            Some(dir) => {
                let p3 = p2 + 1;
                if !peek_text(ts, p3, "by"@) {
                    (None, at(st, p3))
                } else {
                    let p4 = p3 + 1;
                    if !selector_at(ts, p4) {
                        (None, at(st, p4))
                    } else if ts[p4].text == "*"@ {
                        (wildcard_unit_spec(docs, d, dir, port), at(st, p4 + 1))
                    } else {
                        (instance_scoped_unit_spec(docs, d, reference_of(port, ts[p4], dir)), at(st, p4 + 1))
                    }
                }
            },
        }
    }
}

/// Field accesses after a primary: each `.field` takes the field's poset.
pub open spec fn postfix_rest_spec(ts: Seq<TokenView>, e: ExprUnitView, st: PState) -> (Option<ExprUnitView>, PState)
    decreases ts.len() - st.pos,
{
    if peek_text(ts, st.pos, "."@) {
        let p1 = st.pos + 1;
        if !peek_word(ts, p1) {
            (None, at(st, p1))
        } else {
            let field = ts[p1];
            match field_poset_spec(e.poset, field.text) {
                None => (None, at(st, p1 + 1)),
                Some(fp) => {
                    let fu = poset_unit_spec(fp);
                    let next = ExprUnitView {
                        label: field.text,
                        unit: match fu {
                            Some(t) => from_text_spec(t),
                            None => Seq::empty(),
                        },
                        unit_text: fu,
                        poset: Some(fp),
                        scalar: !(fp is Product),
                        range: field.range,
                    };
                    postfix_rest_spec(ts, next, at(st, p1 + 1))
                },
            }
        }
    } else {
        (Some(e), st)
    }
}

/// The diagnostic for two terms of a sum with different units.
pub open spec fn additive_mismatch_spec(left: ExprUnitView, right: ExprUnitView, op: Seq<char>) -> ProjectDiagnosticView {
    ProjectDiagnosticView {
        code: "lsp.unit-mismatch"@,
        message: "unit mismatch: `"@ + right.label + "` has unit `"@ + label_spec(right.unit) + "`, but `"@ + op
            + "` combines it with `"@ + left.label + "` of unit `"@ + label_spec(left.unit) + "`"@,
        help: Some("Additive expression terms must have compatible units before the relation is checked."@),
        severity: Severity::Error,
        range: right.range,
    }
}

pub open spec fn moved(st: PState, s2: PState, len: int) -> bool {
    st.pos <= s2.pos <= len
}

/// A sum or difference of products.
pub open spec fn additive_spec(docs: Seq<IndexedDocumentView>, d: DocumentSymbolsView, ts: Seq<TokenView>, st: PState) -> (
    Option<ExprUnitView>,
    PState,
)
    decreases ts.len() - st.pos, 9int,
{
    let (r, s1) = multiplicative_spec(docs, d, ts, st);
    match r {
        None => (None, s1),
        Some(e) => if moved(st, s1, ts.len() as int) {
            additive_rest_spec(docs, d, ts, e, s1)
        } else {
            (None, s1)
        },
    }
}

pub open spec fn additive_rest_spec(
    docs: Seq<IndexedDocumentView>,
    d: DocumentSymbolsView,
    ts: Seq<TokenView>,
    e: ExprUnitView,
    st: PState,
) -> (Option<ExprUnitView>, PState)
    decreases ts.len() - st.pos, 7int,
{
    if peek_text(ts, st.pos, "+"@) || peek_text(ts, st.pos, "-"@) {
        let op = ts[st.pos].text;
        let (r, s2) = multiplicative_spec(docs, d, ts, at(st, st.pos + 1));
        match r {
            None => (None, s2),
            Some(right) => if !e.scalar || !right.scalar {
                (None, s2)
            } else if e.unit != right.unit {
                (None, PState { pos: s2.pos, diags: s2.diags.push(additive_mismatch_spec(e, right, op)) })
            } else if moved(at(st, st.pos + 1), s2, ts.len() as int) {
                additive_rest_spec(docs, d, ts, ExprUnitView { range: merge_range_spec(e.range, right.range), ..e }, s2)
            } else {
                (None, s2)
            },
        }
    } else {
        (Some(e), st)
    }
}

/// A product or quotient of unary terms.
pub open spec fn multiplicative_spec(docs: Seq<IndexedDocumentView>, d: DocumentSymbolsView, ts: Seq<TokenView>, st: PState) -> (
    Option<ExprUnitView>,
    PState,
)
    decreases ts.len() - st.pos, 8int,
{
    let (r, s1) = unary_spec(docs, d, ts, st);
    match r {
        None => (None, s1),
        Some(e) => if moved(st, s1, ts.len() as int) {
            multiplicative_rest_spec(docs, d, ts, e, s1)
        } else {
            (None, s1)
        },
    }
}

pub open spec fn multiplicative_rest_spec(
    docs: Seq<IndexedDocumentView>,
    d: DocumentSymbolsView,
    ts: Seq<TokenView>,
    e: ExprUnitView,
    st: PState,
) -> (Option<ExprUnitView>, PState)
    decreases ts.len() - st.pos, 5int,
{
    let times = peek_text(ts, st.pos, "*"@) || peek_text(ts, st.pos, "·"@) || peek_text(ts, st.pos, "⋅"@);
    if times || peek_text(ts, st.pos, "/"@) {
        let (r, s2) = unary_spec(docs, d, ts, at(st, st.pos + 1));
        match r {
            None => (None, s2),
            Some(right) => if !e.scalar || !right.scalar {
                (None, s2)
            } else if moved(at(st, st.pos + 1), s2, ts.len() as int) {
                let next = ExprUnitView {
                    label: "expression"@,
                    unit: extend_spec(e.unit, right.unit, if times { 1i32 } else { -1i32 }, right.unit.len() as int),
                    unit_text: None,
                    poset: None,
                    scalar: true,
                    range: merge_range_spec(e.range, right.range),
                };
                multiplicative_rest_spec(docs, d, ts, next, s2)
            } else {
                (None, s2)
            },
        }
    } else {
        (Some(e), st)
    }
}

/// A negation or a postfix term.
pub open spec fn unary_spec(docs: Seq<IndexedDocumentView>, d: DocumentSymbolsView, ts: Seq<TokenView>, st: PState) -> (
    Option<ExprUnitView>,
    PState,
)
    decreases ts.len() - st.pos, 6int,
{
    if peek_text(ts, st.pos, "-"@) {
        let op = ts[st.pos];
        let (r, s2) = unary_spec(docs, d, ts, at(st, st.pos + 1));
        match r {
            None => (None, s2),
            Some(e) => (Some(ExprUnitView { range: merge_range_spec(op.range, e.range), ..e }), s2),
        }
    } else {
        postfix_spec(docs, d, ts, st)
    }
}

pub open spec fn postfix_spec(docs: Seq<IndexedDocumentView>, d: DocumentSymbolsView, ts: Seq<TokenView>, st: PState) -> (
    Option<ExprUnitView>,
    PState,
)
    decreases ts.len() - st.pos, 4int,
{
    let (r, s1) = primary_spec(docs, d, ts, st);
    match r {
        None => (None, s1),
        Some(e) => postfix_rest_spec(ts, e, s1),
    }
}

/// A parenthesized expression, a port reference, a sum, a quantity, a
/// model reference (skipped) or a name.
pub open spec fn primary_spec(docs: Seq<IndexedDocumentView>, d: DocumentSymbolsView, ts: Seq<TokenView>, st: PState) -> (
    Option<ExprUnitView>,
    PState,
)
    decreases ts.len() - st.pos, 3int,
{
    if peek_text(ts, st.pos, "("@) {
        let open = ts[st.pos];
        let (r, s1) = additive_spec(docs, d, ts, at(st, st.pos + 1));
        match r {
            None => (None, s1),
            Some(e) => if peek_text(ts, s1.pos, ")"@) {
                (
                    Some(ExprUnitView { range: TextRange { start: open.range.start, end: ts[s1.pos].range.end }, ..e }),
                    at(s1, s1.pos + 1),
                )
            } else {
                (None, s1)
            },
        }
    } else if peek_text(ts, st.pos, "provided"@) || peek_text(ts, st.pos, "required"@) {
        prefix_port_spec(docs, d, ts, st)
    } else if peek_text(ts, st.pos, "sum"@) {
        aggregate_spec(docs, d, ts, st)
    } else if 0 <= st.pos < ts.len() && ts[st.pos].kind == TokenKind::Number {
        quantity_spec(d.source, ts, st)
    } else if peek_text(ts, st.pos, "`"@) {
        (None, at(st, skip_symbol_literal_spec(ts, st.pos)))
    } else if peek_word(ts, st.pos) {
        word_primary_spec(docs, d, ts, st)
    } else {
        (None, st)
    }
}

/// The unit of an expression over its tokens, with the diagnostics found;
/// none unless it spans every token.
pub open spec fn expression_unit_spec(docs: Seq<IndexedDocumentView>, d: DocumentSymbolsView, range: TextRange, diags: Seq<
    ProjectDiagnosticView,
>) -> (Option<ExprUnitView>, Seq<ProjectDiagnosticView>) {
    let ts = tokens_within(lex_spec(d.source), range);
    if ts.len() == 0 {
        (None, diags)
    } else {
        let (r, st) = additive_spec(docs, d, ts, PState { pos: 0, diags });
        (
            match r {
                Some(e) => if st.pos == ts.len() {
                    Some(e)
                } else {
                    None
                },
                None => None,
            },
            st.diags,
        )
    }
}

// ---------------------------------------------------------------------------
// Computing the unit of an expression
// ---------------------------------------------------------------------------

/// The unit of an expression, as the check computes it.
#[derive(Debug, PartialEq, Eq)]
pub struct ExpressionUnit {
    pub label: String,
    pub unit: UnitFactors,
    pub unit_text: Option<String>,
    pub poset: Option<PosetRef>,
    pub scalar: bool,
    pub range: TextRange,
}

impl View for ExpressionUnit {
    type V = ExprUnitView;

    open spec fn view(&self) -> ExprUnitView {
        ExprUnitView {
            label: self.label@,
            unit: self.unit@,
            unit_text: crate::project::opt_string(self.unit_text),
            poset: crate::symbols::opt_poset(self.poset),
            scalar: self.scalar,
            range: self.range,
        }
    }
}

pub open spec fn opt_unit(o: Option<ExpressionUnit>) -> Option<ExprUnitView> {
    match o {
        Some(e) => Some(e@),
        None => None,
    }
}

/// What the unit check reads: the project, the document, its lines, and
/// the tokens of the expression.
pub struct UnitContext<'a> {
    pub index: &'a ProjectSymbolIndex,
    pub document: &'a DocumentSymbols,
    pub line_index: LineIndex,
    pub tokens: Vec<Token>,
}

impl<'a> UnitContext<'a> {
    pub open spec fn wf(&self) -> bool {
        self.line_index.wf() && self.line_index@ == self.document@.source
    }

    pub open spec fn ts(&self) -> Seq<TokenView> {
        tokens_view(self.tokens@)
    }
}

/// The result of a parse step against its specification.
pub open spec fn step_ok(
    r: (Option<ExpressionUnit>, usize),
    expected: (Option<ExprUnitView>, PState),
    diags: Seq<ProjectDiagnostic>,
) -> bool {
    opt_unit(r.0) == expected.0 && r.1 as int == expected.1.pos && views(diags) == expected.1.diags
}

fn peek(cx: &UnitContext, pos: usize, lit: &str) -> (r: bool)
    ensures
        r == peek_text(cx.ts(), pos as int, lit@),
{
    if pos < cx.tokens.len() {
        assert(cx.ts()[pos as int] == cx.tokens@[pos as int]@);
        text_is(&cx.tokens[pos], lit)
    } else {
        false
    }
}

fn peek_word_at(cx: &UnitContext, pos: usize) -> (r: bool)
    ensures
        r == peek_word(cx.ts(), pos as int),
{
    if pos < cx.tokens.len() {
        assert(cx.ts()[pos as int] == cx.tokens@[pos as int]@);
        crate::symbols::is_symbol_name(&cx.tokens[pos])
    } else {
        false
    }
}

fn is_unit_atom(t: &Token) -> (r: bool)
    ensures
        r == is_unit_atom_token(t@),
{
    if text_is(t, "provided") || text_is(t, "required") || text_is(t, "by") || text_is(t, "sum") || text_is(
        t,
        "constant",
    ) || text_is(t, "true") || text_is(t, "false") {
        return false;
    }
    crate::symbols::is_symbol_name(t) || t.kind == TokenKind::Number || text_is(t, "$") || text_is(t, "°")
}

fn peek_unit_atom_at(cx: &UnitContext, pos: usize) -> (r: bool)
    ensures
        r == peek_unit_atom(cx.ts(), pos as int),
{
    if pos < cx.tokens.len() {
        assert(cx.ts()[pos as int] == cx.tokens@[pos as int]@);
        is_unit_atom(&cx.tokens[pos])
    } else {
        false
    }
}

fn direction_at_exec(cx: &UnitContext, pos: usize) -> (r: Option<PortDirection>)
    ensures
        r == direction_at(cx.ts(), pos as int),
{
    if peek(cx, pos, "provided") {
        Some(PortDirection::Provided)
    } else if peek(cx, pos, "required") {
        Some(PortDirection::Required)
    } else {
        None
    }
}

/// The unit of a quantity or assignment written with a unit text.
pub fn from_unit(label: String, unit: String, range: TextRange) -> (r: ExpressionUnit)
    ensures
        r@ == from_unit_spec(label@, unit@, range),
{
    let factors = UnitFactors::from_text(unit.as_str());
    let parsed = crate::expression::parse_unit_expression_text(unit.as_str());
    ExpressionUnit {
        label,
        unit: factors,
        unit_text: Some(unit),
        poset: Some(PosetRef::Unit(parsed)),
        scalar: true,
        range,
    }
}

/// The unit of a port.
pub fn from_port(label: String, range: TextRange, port: &PortSymbol) -> (r: ExpressionUnit)
    ensures
        r@ == from_port_spec(label@, range, port@),
{
    let declared: Option<String> = match &port.unit {
        Some(u) => Some(u.text.clone()),
        None => None,
    };
    let unit_text: Option<String> = match &port.poset {
        Some(p) => match crate::symbols::poset_unit_text(p) {
            Some(t) => Some(t),
            None => declared,
        },
        None => declared,
    };
    let unit = match &unit_text {
        Some(t) => UnitFactors::from_text(t.as_str()),
        None => UnitFactors::one(),
    };
    let scalar = match &port.poset {
        Some(PosetRef::Product(_)) => false,
        _ => true,
    };
    let poset = match &port.poset {
        Some(p) => Some(crate::poset::copy_poset(p)),
        None => None,
    };
    ExpressionUnit { label, unit, unit_text, poset, scalar, range }
}

fn field_poset(poset: &Option<PosetRef>, field: &str) -> (r: Option<PosetRef>)
    ensures
        crate::symbols::opt_poset(r) == field_poset_spec(crate::symbols::opt_poset(*poset), field@),
{
    match poset {
        Some(PosetRef::Product(fields)) => {
            let ghost fv = crate::poset::fields_view(fields@);
            proof {
                crate::poset::lemma_fields_view(fields@);
            }
            let mut i: usize = 0;
            while i < fields.len()
                invariant
                    i <= fields@.len(),
                    fv == crate::poset::fields_view(fields@),
                    fv.len() == fields@.len(),
                    forall|k: int| 0 <= k < fields@.len() ==> #[trigger] fv[k] == (fields@[k].name@, crate::poset::poset_view(fields@[k].poset)),
                    field_poset_spec(crate::symbols::opt_poset(*poset), field@) == match field_index(fv, field@, i as int) {
                        Some(j) => Some(fv[j].1),
                        None => None,
                    },
                decreases fields@.len() - i,
            {
                assert(fv[i as int] == (fields@[i as int].name@, crate::poset::poset_view(fields@[i as int].poset)));
                if str_eq(fields[i].name.as_str(), field) {
                    return Some(crate::poset::copy_poset(&fields[i].poset));
                }
                i = i + 1;
            }
            None
        },
        _ => None,
    }
}

fn merge_range(l: TextRange, r: TextRange) -> (m: TextRange)
    ensures
        m == merge_range_spec(l, r),
{
    TextRange {
        start: if l.start <= r.start {
            l.start
        } else {
            r.start
        },
        end: if l.end >= r.end {
            l.end
        } else {
            r.end
        },
    }
}

fn bracket_unit(cx: &UnitContext, p: usize) -> (r: (Option<(String, TextRange)>, usize))
    requires
        cx.wf(),
        p <= cx.tokens@.len(),
    ensures
        p <= r.1 <= cx.tokens@.len(),
        ({
            let (o, q) = bracket_unit_spec(cx.document@.source, cx.ts(), p as int);
            q == r.1 as int && match (o, r.0) {
                (Some((t, rg)), Some((t2, rg2))) => t == t2@ && rg == rg2,
                (None, None) => true,
                _ => false,
            }
        }),
{
    let ghost ts = cx.ts();
    let n = cx.tokens.len();
    if !peek(cx, p, "[") {
        return (None, p);
    }
    let close = match crate::symbols::matching_close(cx.tokens.as_slice(), p, "[", "]") {
        Some(c) => c,
        None => return (None, p),
    };
    proof {
        crate::symbols::lemma_matching_close(ts, "["@, "]"@, p as int, 0);
        assert(ts.len() == cx.tokens@.len());
    }
    assert(close < n);
    assert(ts[p as int] == cx.tokens@[p as int]@);
    assert(ts[close as int] == cx.tokens@[close as int]@);
    let range = crate::symbols::trim_range(
        &cx.line_index,
        TextRange { start: cx.tokens[p].range.end, end: cx.tokens[close].range.start },
    );
    if range.start == range.end {
        return (None, close + 1);
    }
    (Some((crate::symbols::range_text(&cx.line_index, range), cx.tokens[close].range)), close + 1)
}

fn trailing_end_exec(cx: &UnitContext, q: usize) -> (r: usize)
    requires
        q <= cx.tokens@.len(),
    ensures
        r as int == trailing_end(cx.ts(), q as int),
        q <= r <= cx.tokens@.len(),
    decreases cx.tokens@.len() - q,
{
    if q >= cx.tokens.len() {
        return q;
    }
    if peek(cx, q, "^") || peek(cx, q, "^-") || peek(cx, q, "^+") {
        if peek_unit_atom_at(cx, q + 1) {
            return trailing_end_exec(cx, q + 2);
        }
        return q;
    }
    if (peek(cx, q, "*") || peek(cx, q, "/") || peek(cx, q, "·") || peek(cx, q, "⋅")) && peek_unit_atom_at(cx, q + 1) {
        return trailing_end_exec(cx, q + 2);
    }
    q
}

fn trailing_unit(cx: &UnitContext, p: usize) -> (r: (Option<(String, TextRange)>, usize))
    requires
        cx.wf(),
        p <= cx.tokens@.len(),
    ensures
        p <= r.1 <= cx.tokens@.len(),
        ({
            let (o, q) = trailing_unit_spec(cx.document@.source, cx.ts(), p as int);
            q == r.1 as int && match (o, r.0) {
                (Some((t, rg)), Some((t2, rg2))) => t == t2@ && rg == rg2,
                (None, None) => true,
                _ => false,
            }
        }),
{
    let ghost ts = cx.ts();
    if !peek_unit_atom_at(cx, p) {
        return (None, p);
    }
    let n = cx.tokens.len();
    assert(ts.len() == n);
    let q = trailing_end_exec(cx, p + 1);
    assert(ts[p as int] == cx.tokens@[p as int]@);
    assert(ts[q - 1] == cx.tokens@[q - 1]@);
    let range = TextRange { start: cx.tokens[p].range.start, end: cx.tokens[q - 1].range.end };
    (Some((crate::symbols::range_text(&cx.line_index, range), range)), q)
}

fn quantity(cx: &UnitContext, pos: usize, diags: &Vec<ProjectDiagnostic>) -> (r: (Option<ExpressionUnit>, usize))
    requires
        cx.wf(),
        pos <= cx.tokens@.len(),
    ensures
        step_ok(r, quantity_spec(cx.document@.source, cx.ts(), PState { pos: pos as int, diags: views(diags@) }), diags@),
        pos <= r.1 <= cx.tokens@.len(),
{
    let ghost ts = cx.ts();
    if !(pos < cx.tokens.len() && cx.tokens[pos].kind == TokenKind::Number) {
        proof {
            if pos < cx.tokens@.len() {
                assert(ts[pos as int] == cx.tokens@[pos as int]@);
            }
        }
        return (None, pos);
    }
    assert(ts[pos as int] == cx.tokens@[pos as int]@);
    let number = &cx.tokens[pos];
    let (bracket, p2) = bracket_unit(cx, pos + 1);
    match bracket {
        Some((unit, range)) => {
            return (
                Some(from_unit(number.text.clone(), unit, TextRange { start: number.range.start, end: range.end })),
                p2,
            );
        },
        None => {},
    }
    let (trailing, p3) = trailing_unit(cx, p2);
    match trailing {
        Some((unit, range)) => (
            Some(from_unit(number.text.clone(), unit, TextRange { start: number.range.start, end: range.end })),
            p3,
        ),
        None => (
            Some(
                ExpressionUnit {
                    label: number.text.clone(),
                    unit: UnitFactors::one(),
                    unit_text: None,
                    poset: None,
                    scalar: true,
                    range: number.range,
                },
            ),
            p3,
        ),
    }
}

fn skip_literal_exec(cx: &UnitContext, p: usize) -> (r: usize)
    requires
        p <= cx.tokens@.len(),
    ensures
        r as int == skip_literal_from(cx.ts(), p as int),
        p <= r <= cx.tokens@.len(),
    decreases cx.tokens@.len() - p,
{
    if p >= cx.tokens.len() {
        return p;
    }
    if peek(cx, p, ",") || peek(cx, p, ")") {
        return p;
    }
    if peek(cx, p, ":") || peek_word_at(cx, p) {
        return skip_literal_exec(cx, p + 1);
    }
    p
}

fn skip_balanced_exec(cx: &UnitContext, p: usize, open: &str, close: &str, depth: usize) -> (r: usize)
    requires
        p <= cx.tokens@.len(),
        depth <= p,
    ensures
        r as int == skip_balanced_from(cx.ts(), p as int, open@, close@, depth as nat),
        p <= r <= cx.tokens@.len(),
    decreases cx.tokens@.len() - p,
{
    if p >= cx.tokens.len() {
        return p;
    }
    if peek(cx, p, open) {
        return skip_balanced_exec(cx, p + 1, open, close, depth + 1);
    }
    if peek(cx, p, close) {
        let d = if depth > 0 {
            depth - 1
        } else {
            0
        };
        if d == 0 {
            return p + 1;
        }
        return skip_balanced_exec(cx, p + 1, open, close, d);
    }
    skip_balanced_exec(cx, p + 1, open, close, depth)
}

fn local_port_unit(cx: &UnitContext, dir: PortDirection, port: &Token) -> (r: Option<ExpressionUnit>)
    ensures
        opt_unit(r) == local_port_unit_spec(cx.document@, dir, port@),
{
    match cx.document.port_named(dir, port.text.as_str()) {
        Some(p) => Some(from_port(port.text.clone(), port.range, p)),
        None => None,
    }
}

fn instance_scoped_unit(cx: &UnitContext, port: &Token, instance: &Token, dir: PortDirection) -> (r: Option<
    ExpressionUnit,
>)
    ensures
        opt_unit(r) == instance_scoped_unit_spec(cx.index@, cx.document@, reference_of(port@, instance@, dir)),
{
    let reference = crate::lookup::InstanceScopedReference {
        port_name: port.text.clone(),
        port_range: port.range,
        instance_name: instance.text.clone(),
        instance_range: instance.range,
        direction: dir,
    };
    assert(reference@ == reference_of(port@, instance@, dir));
    match cx.index.resolve_instance_scoped_reference(cx.document, &reference) {
        Some((_, p)) => Some(from_port(port.text.clone(), port.range, p)),
        None => None,
    }
}

fn assignment_unit(cx: &UnitContext, name: &Token) -> (r: Option<ExpressionUnit>)
    ensures
        opt_unit(r) == assignment_unit_spec(cx.document@, name@),
{
    match cx.document.assignment_named(name.text.as_str()) {
        Some(a) => match &a.unit {
            Some(u) => Some(from_unit(name.text.clone(), u.text.clone(), name.range)),
            None => None,
        },
        None => None,
    }
}

fn wildcard_unit(cx: &UnitContext, dir: PortDirection, port: &Token) -> (r: Option<ExpressionUnit>)
    ensures
        opt_unit(r) == wildcard_unit_spec(cx.index@, cx.document@, dir, port@),
{
    let d = cx.document;
    let ghost dv = d@;
    let mut units: Vec<UnitFactors> = Vec::new();
    let mut i: usize = 0;
    while i < d.instances.len()
        invariant
            i <= d.instances@.len(),
            dv == d@,
            dv.instances == views(d.instances@),
            units@.map_values(|u: UnitFactors| u@) == wildcard_units(cx.index@, dv, dir, port@.text, i as int),
        decreases d.instances@.len() - i,
    {
        assert(dv.instances[i as int] == d.instances@[i as int]@);
        let ghost before = units@.map_values(|u: UnitFactors| u@);
        match &d.instances[i].model {
            Some(m) => match cx.index.model_document(m.name.as_str()) {
                Some(t) => {
                    let entry = cx.index.entry(t);
                    match entry.symbols.port_named(dir, port.text.as_str()) {
                        Some(p) => {
                            let u = match &p.unit {
                                Some(text) => UnitFactors::from_text(text.text.as_str()),
                                None => UnitFactors::one(),
                            };
                            units.push(u);
                            assert(units@.map_values(|u: UnitFactors| u@) =~= before.push(u@));
                        },
                        None => {},
                    }
                },
                None => {},
            },
            None => {},
        }
        i = i + 1;
    }
    let ghost uv = units@.map_values(|u: UnitFactors| u@);
    if units.len() == 0 {
        return None;
    }
    let mut k: usize = 1;
    while k < units.len()
        invariant
            1 <= k <= units@.len(),
            uv == units@.map_values(|u: UnitFactors| u@),
            uv == wildcard_units(cx.index@, cx.document@, dir, port@.text, cx.document@.instances.len() as int),
            forall|j: int| 0 <= j < k ==> #[trigger] uv[j] == uv[0],
        decreases units@.len() - k,
    {
        if !units[k].same(&units[0]) {
            assert(!(uv[k as int] == uv[0]));
            return None;
        }
        k = k + 1;
    }
    let first = units[0].copy();
    Some(
        ExpressionUnit {
            label: port.text.clone(),
            unit: first,
            unit_text: None,
            poset: None,
            scalar: true,
            range: port.range,
        },
    )
}

fn prefix_port(cx: &UnitContext, pos: usize, diags: &Vec<ProjectDiagnostic>) -> (r: (Option<ExpressionUnit>, usize))
    requires
        pos <= cx.tokens@.len(),
    ensures
        step_ok(r, prefix_port_spec(cx.index@, cx.document@, cx.ts(), PState { pos: pos as int, diags: views(diags@) }), diags@),
        pos <= r.1 <= cx.tokens@.len(),
{
    let ghost ts = cx.ts();
    let n = cx.tokens.len();
    assert(ts.len() == n);
    let dir = match direction_at_exec(cx, pos) {
        Some(d) => d,
        None => return (None, pos),
    };
    let p1 = pos + 1;
    if !peek_word_at(cx, p1) {
        return (None, p1);
    }
    let port = &cx.tokens[p1];
    assert(ts[p1 as int] == port@);
    let p2 = p1 + 1;
    if peek(cx, p2, "by") {
        let p3 = p2 + 1;
        if !(peek(cx, p3, "*") || peek_word_at(cx, p3)) {
            return (None, p3);
        }
        let instance = &cx.tokens[p3];
        assert(ts[p3 as int] == instance@);
        if text_is(instance, "*") {
            return (None, p3 + 1);
        }
        return (instance_scoped_unit(cx, port, instance, dir), p3 + 1);
    }
    (local_port_unit(cx, dir, port), p2)
}

fn word_primary(cx: &UnitContext, pos: usize, diags: &Vec<ProjectDiagnostic>) -> (r: (Option<ExpressionUnit>, usize))
    requires
        pos <= cx.tokens@.len(),
    ensures
        step_ok(r, word_primary_spec(cx.index@, cx.document@, cx.ts(), PState { pos: pos as int, diags: views(diags@) }), diags@),
        pos <= r.1 <= cx.tokens@.len(),
{
    let ghost ts = cx.ts();
    let n = cx.tokens.len();
    assert(ts.len() == n);
    if !peek_word_at(cx, pos) {
        return (None, pos);
    }
    let name = &cx.tokens[pos];
    assert(ts[pos as int] == name@);
    let p1 = pos + 1;
    if peek(cx, p1, "(") {
        return (None, skip_balanced_exec(cx, p1 + 1, "(", ")", 1));
    }
    match direction_at_exec(cx, p1) {
        Some(dir) => {
            let p2 = p1 + 1;
            if !peek(cx, p2, "by") {
                return (None, p2);
            }
            let p3 = p2 + 1;
            if !(peek(cx, p3, "*") || peek_word_at(cx, p3)) {
                return (None, p3);
            }
            let instance = &cx.tokens[p3];
            assert(ts[p3 as int] == instance@);
            if text_is(instance, "*") {
                return (None, p3 + 1);
            }
            (instance_scoped_unit(cx, name, instance, dir), p3 + 1)
        },
        None => (assignment_unit(cx, name), p1),
    }
}

fn aggregate(cx: &UnitContext, pos: usize, diags: &Vec<ProjectDiagnostic>) -> (r: (Option<ExpressionUnit>, usize))
    requires
        pos <= cx.tokens@.len(),
    ensures
        step_ok(r, aggregate_spec(cx.index@, cx.document@, cx.ts(), PState { pos: pos as int, diags: views(diags@) }), diags@),
        pos <= r.1 <= cx.tokens@.len(),
{
    let ghost ts = cx.ts();
    let n = cx.tokens.len();
    assert(ts.len() == n);
    let p1 = if peek(cx, pos, "sum") {
        pos + 1
    } else {
        pos
    };
    if !peek_word_at(cx, p1) {
        return (None, p1);
    }
    let port = &cx.tokens[p1];
    assert(ts[p1 as int] == port@);
    let p2 = p1 + 1;
    let dir = match direction_at_exec(cx, p2) {
        Some(d) => d,
        None => return (None, p2),
    };
    let p3 = p2 + 1;
    if !peek(cx, p3, "by") {
        return (None, p3);
    }
    let p4 = p3 + 1;
    if !(peek(cx, p4, "*") || peek_word_at(cx, p4)) {
        return (None, p4);
    }
    let instance = &cx.tokens[p4];
    assert(ts[p4 as int] == instance@);
    if text_is(instance, "*") {
        return (wildcard_unit(cx, dir, port), p4 + 1);
    }
    (instance_scoped_unit(cx, port, instance, dir), p4 + 1)
}

fn postfix_rest(cx: &UnitContext, e: ExpressionUnit, pos: usize, diags: &Vec<ProjectDiagnostic>) -> (r: (
    Option<ExpressionUnit>,
    usize,
))
    requires
        pos <= cx.tokens@.len(),
    ensures
        step_ok(r, postfix_rest_spec(cx.ts(), e@, PState { pos: pos as int, diags: views(diags@) }), diags@),
        pos <= r.1 <= cx.tokens@.len(),
    decreases cx.tokens@.len() - pos,
{
    let ghost ts = cx.ts();
    let n = cx.tokens.len();
    assert(ts.len() == n);
    if !peek(cx, pos, ".") {
        return (Some(e), pos);
    }
    let p1 = pos + 1;
    if !peek_word_at(cx, p1) {
        return (None, p1);
    }
    let field = &cx.tokens[p1];
    assert(ts[p1 as int] == field@);
    let fp = match field_poset(&e.poset, field.text.as_str()) {
        Some(fp) => fp,
        None => return (None, p1 + 1),
    };
    let fu = crate::symbols::poset_unit_text(&fp);
    let unit = match &fu {
        Some(t) => UnitFactors::from_text(t.as_str()),
        None => UnitFactors::one(),
    };
    let scalar = match &fp {
        PosetRef::Product(_) => false,
        _ => true,
    };
    let next = ExpressionUnit { label: field.text.clone(), unit, unit_text: fu, poset: Some(fp), scalar, range: field.range };
    postfix_rest(cx, next, p1 + 1, diags)
}

fn push_all(out: &mut Vec<char>, parts: &Vec<&str>)
    ensures
        final(out)@ == old(out)@ + join(crate::declaration::strs_view(parts@), ""@),
{
    let ghost pv = crate::declaration::strs_view(parts@);
    let ghost base = out@;
    let mut i: usize = 0;
    proof {
        reveal_strlit("");
        assert(join(pv.take(0), ""@) =~= Seq::<char>::empty());
        assert(base + join(pv.take(0), ""@) =~= base);
    }
    while i < parts.len()
        invariant
            i <= parts@.len(),
            pv == crate::declaration::strs_view(parts@),
            out@ == base + join(pv.take(i as int), ""@),
        decreases parts@.len() - i,
    {
        push_chars(out, parts[i]);
        proof {
            reveal_strlit("");
            assert(pv[i as int] == parts@[i as int]@);
            assert(pv.take(i + 1).drop_last() =~= pv.take(i as int));
            if i == 0 {
                assert(join(pv.take(1), ""@) == pv[0]);
                assert(out@ =~= base + join(pv.take(1), ""@));
            } else {
                assert(join(pv.take(i + 1), ""@) == join(pv.take(i as int), ""@) + ""@ + pv[i as int]);
                assert(join(pv.take(i + 1), ""@) =~= join(pv.take(i as int), ""@) + pv[i as int]);
                assert(out@ =~= base + join(pv.take(i + 1), ""@));
            }
        }
        i = i + 1;
    }
    assert(pv.take(parts@.len() as int) =~= pv);
}

proof fn lemma_join_eleven(p: Seq<Seq<char>>)
    requires
        p.len() == 11,
    ensures
        join(p, ""@) == p[0] + p[1] + p[2] + p[3] + p[4] + p[5] + p[6] + p[7] + p[8] + p[9] + p[10],
{
    reveal_strlit("");
    let e = ""@;
    assert(e.len() == 0);
    assert forall|k: int| 1 <= k <= 11 implies #[trigger] join(p.take(k), e) == join(p.take(k - 1), e) + p[k - 1]
        || k == 1 by {
        if k > 1 {
            assert(p.take(k).drop_last() =~= p.take(k - 1));
            assert(p.take(k).last() == p[k - 1]);
            assert(join(p.take(k), e) =~= join(p.take(k - 1), e) + p[k - 1]);
        }
    }
    assert(join(p.take(1), e) == p[0]);
    assert(join(p.take(2), e) == p[0] + p[1]);
    assert(join(p.take(3), e) =~= p[0] + p[1] + p[2]);
    assert(join(p.take(4), e) =~= p[0] + p[1] + p[2] + p[3]);
    assert(join(p.take(5), e) =~= p[0] + p[1] + p[2] + p[3] + p[4]);
    assert(join(p.take(6), e) =~= p[0] + p[1] + p[2] + p[3] + p[4] + p[5]);
    assert(join(p.take(7), e) =~= p[0] + p[1] + p[2] + p[3] + p[4] + p[5] + p[6]);
    assert(join(p.take(8), e) =~= p[0] + p[1] + p[2] + p[3] + p[4] + p[5] + p[6] + p[7]);
    assert(join(p.take(9), e) =~= p[0] + p[1] + p[2] + p[3] + p[4] + p[5] + p[6] + p[7] + p[8]);
    assert(join(p.take(10), e) =~= p[0] + p[1] + p[2] + p[3] + p[4] + p[5] + p[6] + p[7] + p[8] + p[9]);
    assert(join(p.take(11), e) =~= p[0] + p[1] + p[2] + p[3] + p[4] + p[5] + p[6] + p[7] + p[8] + p[9] + p[10]);
    assert(p.take(11) =~= p);
}

fn additive_mismatch(left: &ExpressionUnit, right: &ExpressionUnit, op: &str) -> (r: ProjectDiagnostic)
    ensures
        r@ == additive_mismatch_spec(left@, right@, op@),
{
    let right_label = right.unit.label();
    let left_label = left.unit.label();
    let parts: Vec<&str> = vec![
        "unit mismatch: `",
        right.label.as_str(),
        "` has unit `",
        right_label.as_str(),
        "`, but `",
        op,
        "` combines it with `",
        left.label.as_str(),
        "` of unit `",
        left_label.as_str(),
        "`",
    ];
    let mut out: Vec<char> = Vec::new();
    push_all(&mut out, &parts);
    proof {
        lemma_join_eleven(crate::declaration::strs_view(parts@));
        assert(out@ =~= additive_mismatch_spec(left@, right@, op@).message);
    }
    ProjectDiagnostic {
        code: "lsp.unit-mismatch".to_owned(),
        message: string_from_chars(out.as_slice()),
        help: Some("Additive expression terms must have compatible units before the relation is checked.".to_owned()),
        severity: Severity::Error,
        range: right.range,
    }
}

fn additive(cx: &UnitContext, pos: usize, diags: &mut Vec<ProjectDiagnostic>) -> (r: (Option<ExpressionUnit>, usize))
    requires
        cx.wf(),
        pos <= cx.tokens@.len(),
    ensures
        step_ok(r, additive_spec(cx.index@, cx.document@, cx.ts(), PState { pos: pos as int, diags: views(old(diags)@) }), final(diags)@),
        pos <= r.1 <= cx.tokens@.len(),
    decreases cx.tokens@.len() - pos, 9int,
{
    let (r, p1) = multiplicative(cx, pos, diags);
    match r {
        None => (None, p1),
        Some(e) => additive_rest(cx, e, p1, diags),
    }
}

fn additive_rest(cx: &UnitContext, e: ExpressionUnit, pos: usize, diags: &mut Vec<ProjectDiagnostic>) -> (r: (
    Option<ExpressionUnit>,
    usize,
))
    requires
        cx.wf(),
        pos <= cx.tokens@.len(),
    ensures
        step_ok(r, additive_rest_spec(cx.index@, cx.document@, cx.ts(), e@, PState { pos: pos as int, diags: views(old(diags)@) }), final(diags)@),
        pos <= r.1 <= cx.tokens@.len(),
    decreases cx.tokens@.len() - pos, 7int,
{
    let ghost ts = cx.ts();
    let n = cx.tokens.len();
    assert(ts.len() == n);
    let plus = peek(cx, pos, "+");
    if !(plus || peek(cx, pos, "-")) {
        return (Some(e), pos);
    }
    assert(ts[pos as int] == cx.tokens@[pos as int]@);
    let op: &str = if plus { "+" } else { "-" };
    assert(op@ == ts[pos as int].text);
    let (r, p2) = multiplicative(cx, pos + 1, diags);
    let right = match r {
        Some(right) => right,
        None => return (None, p2),
    };
    if !e.scalar || !right.scalar {
        return (None, p2);
    }
    if !e.unit.same(&right.unit) {
        let d = additive_mismatch(&e, &right, op);
        proof {
            lemma_views_push(diags@, d);
        }
        diags.push(d);
        return (None, p2);
    }
    let merged = ExpressionUnit {
        label: e.label,
        unit: e.unit,
        unit_text: e.unit_text,
        poset: e.poset,
        scalar: e.scalar,
        range: merge_range(e.range, right.range),
    };
    additive_rest(cx, merged, p2, diags)
}

fn multiplicative(cx: &UnitContext, pos: usize, diags: &mut Vec<ProjectDiagnostic>) -> (r: (Option<ExpressionUnit>, usize))
    requires
        cx.wf(),
        pos <= cx.tokens@.len(),
    ensures
        step_ok(r, multiplicative_spec(cx.index@, cx.document@, cx.ts(), PState { pos: pos as int, diags: views(old(diags)@) }), final(diags)@),
        pos <= r.1 <= cx.tokens@.len(),
    decreases cx.tokens@.len() - pos, 8int,
{
    let (r, p1) = unary(cx, pos, diags);
    match r {
        None => (None, p1),
        Some(e) => multiplicative_rest(cx, e, p1, diags),
    }
}

fn multiplicative_rest(cx: &UnitContext, e: ExpressionUnit, pos: usize, diags: &mut Vec<ProjectDiagnostic>) -> (r: (
    Option<ExpressionUnit>,
    usize,
))
    requires
        cx.wf(),
        pos <= cx.tokens@.len(),
    ensures
        step_ok(r, multiplicative_rest_spec(cx.index@, cx.document@, cx.ts(), e@, PState { pos: pos as int, diags: views(old(diags)@) }), final(diags)@),
        pos <= r.1 <= cx.tokens@.len(),
    decreases cx.tokens@.len() - pos, 5int,
{
    let ghost ts = cx.ts();
    let n = cx.tokens.len();
    assert(ts.len() == n);
    let times = peek(cx, pos, "*") || peek(cx, pos, "·") || peek(cx, pos, "⋅");
    if !(times || peek(cx, pos, "/")) {
        return (Some(e), pos);
    }
    let (r, p2) = unary(cx, pos + 1, diags);
    let right = match r {
        Some(right) => right,
        None => return (None, p2),
    };
    if !e.scalar || !right.scalar {
        return (None, p2);
    }
    let unit = if times {
        e.unit.multiply(&right.unit)
    } else {
        e.unit.divide(&right.unit)
    };
    let next = ExpressionUnit {
        label: "expression".to_owned(),
        unit,
        unit_text: None,
        poset: None,
        scalar: true,
        range: merge_range(e.range, right.range),
    };
    multiplicative_rest(cx, next, p2, diags)
}

fn unary(cx: &UnitContext, pos: usize, diags: &mut Vec<ProjectDiagnostic>) -> (r: (Option<ExpressionUnit>, usize))
    requires
        cx.wf(),
        pos <= cx.tokens@.len(),
    ensures
        step_ok(r, unary_spec(cx.index@, cx.document@, cx.ts(), PState { pos: pos as int, diags: views(old(diags)@) }), final(diags)@),
        pos <= r.1 <= cx.tokens@.len(),
    decreases cx.tokens@.len() - pos, 6int,
{
    let ghost ts = cx.ts();
    let n = cx.tokens.len();
    assert(ts.len() == n);
    if peek(cx, pos, "-") {
        assert(ts[pos as int] == cx.tokens@[pos as int]@);
        let op_range = cx.tokens[pos].range;
        let (r, p2) = unary(cx, pos + 1, diags);
        return match r {
            None => (None, p2),
            Some(e) => (
                Some(
                    ExpressionUnit {
                        label: e.label,
                        unit: e.unit,
                        unit_text: e.unit_text,
                        poset: e.poset,
                        scalar: e.scalar,
                        range: merge_range(op_range, e.range),
                    },
                ),
                p2,
            ),
        };
    }
    postfix(cx, pos, diags)
}

fn postfix(cx: &UnitContext, pos: usize, diags: &mut Vec<ProjectDiagnostic>) -> (r: (Option<ExpressionUnit>, usize))
    requires
        cx.wf(),
        pos <= cx.tokens@.len(),
    ensures
        step_ok(r, postfix_spec(cx.index@, cx.document@, cx.ts(), PState { pos: pos as int, diags: views(old(diags)@) }), final(diags)@),
        pos <= r.1 <= cx.tokens@.len(),
    decreases cx.tokens@.len() - pos, 4int,
{
    let (r, p1) = primary(cx, pos, diags);
    match r {
        None => (None, p1),
        Some(e) => postfix_rest(cx, e, p1, diags),
    }
}

fn primary(cx: &UnitContext, pos: usize, diags: &mut Vec<ProjectDiagnostic>) -> (r: (Option<ExpressionUnit>, usize))
    requires
        cx.wf(),
        pos <= cx.tokens@.len(),
    ensures
        step_ok(r, primary_spec(cx.index@, cx.document@, cx.ts(), PState { pos: pos as int, diags: views(old(diags)@) }), final(diags)@),
        pos <= r.1 <= cx.tokens@.len(),
    decreases cx.tokens@.len() - pos, 3int,
{
    let ghost ts = cx.ts();
    let n = cx.tokens.len();
    assert(ts.len() == n);
    if peek(cx, pos, "(") {
        assert(ts[pos as int] == cx.tokens@[pos as int]@);
        let open_start = cx.tokens[pos].range.start;
        let (r, p1) = additive(cx, pos + 1, diags);
        let e = match r {
            Some(e) => e,
            None => return (None, p1),
        };
        if !peek(cx, p1, ")") {
            return (None, p1);
        }
        assert(ts[p1 as int] == cx.tokens@[p1 as int]@);
        let close_end = cx.tokens[p1].range.end;
        return (
            Some(
                ExpressionUnit {
                    label: e.label,
                    unit: e.unit,
                    unit_text: e.unit_text,
                    poset: e.poset,
                    scalar: e.scalar,
                    range: TextRange { start: open_start, end: close_end },
                },
            ),
            p1 + 1,
        );
    }
    if peek(cx, pos, "provided") || peek(cx, pos, "required") {
        return prefix_port(cx, pos, diags);
    }
    if peek(cx, pos, "sum") {
        return aggregate(cx, pos, diags);
    }
    if pos < n && cx.tokens[pos].kind == TokenKind::Number {
        assert(ts[pos as int] == cx.tokens@[pos as int]@);
        return quantity(cx, pos, diags);
    }
    proof {
        if pos < n {
            assert(ts[pos as int] == cx.tokens@[pos as int]@);
        }
    }
    if peek(cx, pos, "`") {
        let skipped = skip_literal_exec(cx, pos + 1);
        return (None, skipped);
    }
    if peek_word_at(cx, pos) {
        return word_primary(cx, pos, diags);
    }
    (None, pos)
}

/// The unit of the expression in a range of a document, with the
/// diagnostics found on the way.
pub fn expression_unit(
    index: &ProjectSymbolIndex,
    document: &DocumentSymbols,
    range: TextRange,
    diags: &mut Vec<ProjectDiagnostic>,
) -> (r: Option<ExpressionUnit>)
    ensures
        (opt_unit(r), views(final(diags)@)) == expression_unit_spec(index@, document@, range, views(old(diags)@)),
{
    let all = crate::syntax::lex(document.source.as_str());
    let tokens = crate::symbols::statement_tokens(all.as_slice(), range);
    if tokens.len() == 0 {
        return None;
    }
    let cx = UnitContext { index, document, line_index: LineIndex::new(document.source.as_str()), tokens };
    let (r, p) = additive(&cx, 0, diags);
    match r {
        Some(e) => if p == cx.tokens.len() {
            Some(e)
        } else {
            None
        },
        None => None,
    }
}

/// The diagnostic for the sides of a relation with different units.
pub open spec fn agreement_diagnostic_spec(left: ExprUnitView, right: ExprUnitView) -> ProjectDiagnosticView {
    ProjectDiagnosticView {
        code: "lsp.unit-mismatch"@,
        message: "unit mismatch: `"@ + right.label + "` has unit `"@ + label_spec(right.unit) + "`, expected `"@
            + label_spec(left.unit) + "`"@,
        help: Some(
            "This relation compares values against `"@ + left.label + "`; both sides should have compatible units."@,
        ),
        severity: Severity::Error,
        range: right.range,
    }
}

/// The diagnostics after the first `k` relations: each side's expression
/// read (the right one only when the left has a unit), and a mismatch
/// reported when both are scalars with different units.
pub open spec fn agreement_upto(
    docs: Seq<IndexedDocumentView>,
    d: DocumentSymbolsView,
    k: int,
) -> Seq<ProjectDiagnosticView>
    decreases k,
{
    if k <= 0 {
        Seq::empty()
    } else {
        agreement_step_spec(docs, d, agreement_upto(docs, d, k - 1), d.relations[k - 1])
    }
}

/// The diagnostics after one relation.
pub open spec fn agreement_step_spec(
    docs: Seq<IndexedDocumentView>,
    d: DocumentSymbolsView,
    p: Seq<ProjectDiagnosticView>,
    relation: crate::symbols::RelationConstraint,
) -> Seq<ProjectDiagnosticView> {
    let (l, dl) = expression_unit_spec(docs, d, relation.left_range, p);
    match l {
        None => dl,
        Some(left) => {
            let (r, dr) = expression_unit_spec(docs, d, relation.right_range, dl);
            match r {
                None => dr,
                Some(right) => if !left.scalar || !right.scalar || left.unit == right.unit {
                    dr
                } else {
                    dr.push(agreement_diagnostic_spec(left, right))
                },
            }
        },
    }
}

pub open spec fn unit_agreement_diagnostics_spec(docs: Seq<IndexedDocumentView>, d: DocumentSymbolsView) -> Seq<
    ProjectDiagnosticView,
> {
    agreement_upto(docs, d, d.relations.len() as int)
}

proof fn lemma_join_five(p: Seq<Seq<char>>)
    requires
        p.len() == 5,
    ensures
        join(p, ""@) == p[0] + p[1] + p[2] + p[3] + p[4],
{
    reveal_strlit("");
    let e = ""@;
    assert(e.len() == 0);
    assert forall|k: int| 2 <= k <= 5 implies #[trigger] join(p.take(k), e) == join(p.take(k - 1), e) + p[k - 1] by {
        assert(p.take(k).drop_last() =~= p.take(k - 1));
        assert(p.take(k).last() == p[k - 1]);
        assert(join(p.take(k), e) =~= join(p.take(k - 1), e) + p[k - 1]);
    }
    assert(join(p.take(1), e) == p[0]);
    assert(join(p.take(2), e) == p[0] + p[1]);
    assert(join(p.take(3), e) =~= p[0] + p[1] + p[2]);
    assert(join(p.take(4), e) =~= p[0] + p[1] + p[2] + p[3]);
    assert(join(p.take(5), e) =~= p[0] + p[1] + p[2] + p[3] + p[4]);
    assert(p.take(5) =~= p);
}

proof fn lemma_join_three(p: Seq<Seq<char>>)
    requires
        p.len() == 3,
    ensures
        join(p, ""@) == p[0] + p[1] + p[2],
{
    reveal_strlit("");
    let e = ""@;
    assert(p.take(2).drop_last() =~= p.take(1));
    assert(p.take(3).drop_last() =~= p.take(2));
    assert(join(p.take(1), e) == p[0]);
    assert(join(p.take(2), e) =~= p[0] + p[1]);
    assert(join(p.take(3), e) =~= p[0] + p[1] + p[2]);
    assert(p.take(3) =~= p);
}

fn agreement_diagnostic(left: &ExpressionUnit, right: &ExpressionUnit) -> (r: ProjectDiagnostic)
    ensures
        r@ == agreement_diagnostic_spec(left@, right@),
{
    let right_label = right.unit.label();
    let left_label = left.unit.label();
    let head: Vec<&str> = vec!["unit mismatch: `", right.label.as_str(), "` has unit `", right_label.as_str(), "`, expected `"];
    let tail: Vec<&str> = vec![left_label.as_str(), "`", ""];
    let mut out: Vec<char> = Vec::new();
    push_all(&mut out, &head);
    proof {
        lemma_join_five(crate::declaration::strs_view(head@));
        assert(out@ =~= join(crate::declaration::strs_view(head@), ""@));
    }
    let ghost first = out@;
    push_all(&mut out, &tail);
    proof {
        lemma_join_three(crate::declaration::strs_view(tail@));
        reveal_strlit("");
        assert(out@ =~= agreement_diagnostic_spec(left@, right@).message);
    }
    let help_parts: Vec<&str> = vec![
        "This relation compares values against `",
        left.label.as_str(),
        "`; both sides should have compatible units.",
    ];
    let mut help: Vec<char> = Vec::new();
    push_all(&mut help, &help_parts);
    proof {
        lemma_join_three(crate::declaration::strs_view(help_parts@));
        assert(help@ =~= agreement_diagnostic_spec(left@, right@).help.unwrap());
    }
    ProjectDiagnostic {
        code: "lsp.unit-mismatch".to_owned(),
        message: string_from_chars(out.as_slice()),
        help: Some(string_from_chars(help.as_slice())),
        severity: Severity::Error,
        range: right.range,
    }
}

impl ProjectSymbolIndex {
    fn agreement_step(
        &self,
        document: &DocumentSymbols,
        relation: crate::symbols::RelationConstraint,
        diags: &mut Vec<ProjectDiagnostic>,
    )
        ensures
            views(final(diags)@) == agreement_step_spec(self@, document@, views(old(diags)@), relation),
    {
        let left = match expression_unit(self, document, relation.left_range, diags) {
            Some(l) => l,
            None => return ,
        };
        let right = match expression_unit(self, document, relation.right_range, diags) {
            Some(r) => r,
            None => return ,
        };
        if left.scalar && right.scalar && !left.unit.same(&right.unit) {
            let d = agreement_diagnostic(&left, &right);
            proof {
                lemma_views_push(diags@, d);
            }
            diags.push(d);
        }
    }

    /// The diagnostics of the relations of a document whose sides have
    /// different units, with those found while reading the sides.
    pub fn unit_agreement_diagnostics(&self, document: &DocumentSymbols) -> (r: Vec<ProjectDiagnostic>)
        ensures
            views(r@) == unit_agreement_diagnostics_spec(self@, document@),
    {
        let mut diags: Vec<ProjectDiagnostic> = Vec::new();
        assert(views(diags@) =~= Seq::<ProjectDiagnosticView>::empty());
        let mut i: usize = 0;
        while i < document.relations.len()
            invariant
                i <= document.relations@.len(),
                document@.relations == document.relations@,
                views(diags@) == agreement_upto(self@, document@, i as int),
            decreases document.relations@.len() - i,
        {
            let relation = document.relations[i];
            self.agreement_step(document, relation, &mut diags);
            i = i + 1;
        }
        diags
    }
}

} // verus!
