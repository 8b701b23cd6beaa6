//! Lightweight poset references used by parser, compiler frontend, and editor tooling.

use vstd::prelude::*;
use crate::expression::{copy_unit, unit_view, UnitExpression, UnitView};

verus! {

/// Reference to a poset used by ports, catalogs, and values.
#[derive(Debug, PartialEq, Eq)]
pub enum PosetRef {
    /// Parsed unit or quantity poset expression.
    Unit(UnitExpression),
    /// Built-in or unit poset expression, such as `J`, `USD`, or `Nat`.
    Builtin(String),
    /// Named project poset loaded from a `.mcdp_poset` file.
    Named(String),
    /// Anonymous product.
    Product(Vec<NamedPoset>),
    /// Raw expression kept until lowering is complete.
    Raw(String),
}

/// A named field in a product poset.
#[derive(Debug, PartialEq, Eq)]
pub struct NamedPoset {
    /// Field name.
    pub name: String,
    /// Field poset.
    pub poset: PosetRef,
}

pub enum PosetView {
    Unit(UnitView),
    Builtin(Seq<char>),
    Named(Seq<char>),
    Product(Seq<(Seq<char>, PosetView)>),
    Raw(Seq<char>),
}

pub open spec fn poset_view(p: PosetRef) -> PosetView
    decreases p,
{
    match p {
        PosetRef::Unit(u) => PosetView::Unit(unit_view(u)),
        PosetRef::Builtin(s) => PosetView::Builtin(s@),
        PosetRef::Named(s) => PosetView::Named(s@),
        PosetRef::Product(v) => PosetView::Product(fields_view(v@)),
        PosetRef::Raw(s) => PosetView::Raw(s@),
    }
}

pub open spec fn fields_view(s: Seq<NamedPoset>) -> Seq<(Seq<char>, PosetView)>
    decreases s,
{
    if s.len() == 0 {
        Seq::empty()
    } else {
        seq![(s[0].name@, poset_view(s[0].poset))] + fields_view(s.subrange(1, s.len() as int))
    }
}

pub proof fn lemma_fields_view(s: Seq<NamedPoset>)
    ensures
        fields_view(s).len() == s.len(),
        forall|i: int| 0 <= i < s.len() ==> #[trigger] fields_view(s)[i] == (s[i].name@, poset_view(s[i].poset)),
    decreases s.len(),
{
    if s.len() > 0 {
        lemma_fields_view(s.subrange(1, s.len() as int));
        assert forall|i: int| 0 <= i < s.len() implies #[trigger] fields_view(s)[i] == (s[i].name@, poset_view(s[i].poset)) by {
            if i > 0 {
                assert(s.subrange(1, s.len() as int)[i - 1] == s[i]);
            }
        }
    }
}

pub proof fn lemma_fields_view_push(s: Seq<NamedPoset>, f: NamedPoset)
    ensures
        fields_view(s.push(f)) == fields_view(s).push((f.name@, poset_view(f.poset))),
{
    lemma_fields_view(s);
    lemma_fields_view(s.push(f));
    assert(fields_view(s.push(f)) =~= fields_view(s).push((f.name@, poset_view(f.poset))));
}

impl NamedPoset {
    /// Creates a named product field.
    pub fn new(name: String, poset: PosetRef) -> (r: NamedPoset)
        ensures
            r.name@ == name@,
            r.poset == poset,
    {
        NamedPoset { name, poset }
    }
}

/// A copy of a poset reference.
pub fn copy_poset(p: &PosetRef) -> (r: PosetRef)
    ensures
        poset_view(r) == poset_view(*p),
    decreases p,
{
    match p {
        PosetRef::Unit(u) => PosetRef::Unit(copy_unit(u)),
        PosetRef::Builtin(s) => PosetRef::Builtin(s.clone()),
        PosetRef::Named(s) => PosetRef::Named(s.clone()),
        PosetRef::Product(fields) => {
            let mut out: Vec<NamedPoset> = Vec::new();
            let mut i: usize = 0;
            proof {
                lemma_fields_view(out@);
                lemma_fields_view(fields@);
                assert(fields_view(out@) =~= fields_view(fields@).take(0));
            }
            while i < fields.len()
                invariant
                    i <= fields@.len(),
                    *p is Product,
                    p->Product_0 == *fields,
                    fields_view(out@) == fields_view(fields@).take(i as int),
                decreases fields@.len() - i,
            {
                proof {
                    lemma_fields_view(fields@);
                    assert(decreases_to!(*p => fields@));
                    assert(decreases_to!(fields@ => fields@[i as int]));
                }
                let f = &fields[i];
                let c = NamedPoset::new(f.name.clone(), copy_poset(&f.poset));
                proof {
                    lemma_fields_view_push(out@, c);
                    assert(fields_view(fields@).take(i + 1) =~= fields_view(fields@).take(
                        i as int,
                    ).push((fields@[i as int].name@, poset_view(fields@[i as int].poset))));
                }
                out.push(c);
                i = i + 1;
            }
            proof {
                lemma_fields_view(fields@);
                assert(fields_view(fields@).take(fields@.len() as int) =~= fields_view(fields@));
            }
            PosetRef::Product(out)
        },
        PosetRef::Raw(s) => PosetRef::Raw(s.clone()),
    }
}

} // verus!
