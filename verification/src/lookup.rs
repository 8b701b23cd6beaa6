//! Queries on the symbols of one document: references scoped by an
//! instance (`port provided by instance`), the port or assignment at an
//! offset or with a name, and hover texts for the terms of the language.

use vstd::prelude::*;
use crate::completion::{significant, significant_tokens};
use crate::source::TextRange;
use crate::symbols::{
    is_symbol_spec, primitive_hover_spec, primitive_poset_hover_text, term_hover_spec,
    term_hover_text, views, AssignmentSymbol, AssignmentSymbolView, DocumentSymbols,
    DocumentSymbolsView, PortDirection, PortSymbol, PortSymbolView, lemma_views_push,
};
use crate::syntax::{lex, lex_spec, text_is, tokens_view, Token, TokenKind, TokenView};
use crate::text::str_eq;

verus! {

/// Whether an offset lies in a range (its end excluded).
pub open spec fn contains_offset_spec(r: TextRange, offset: int) -> bool {
    r.start <= offset && offset < r.end
}

pub fn contains_offset(r: TextRange, offset: usize) -> (b: bool)
    ensures
        b == contains_offset_spec(r, offset as int),
{
    r.start <= offset && offset < r.end
}

/// A port named through an instance: `port provided by instance`.
#[derive(Debug, PartialEq, Eq)]
pub struct InstanceScopedReference {
    pub port_name: String,
    pub port_range: TextRange,
    pub instance_name: String,
    pub instance_range: TextRange,
    pub direction: PortDirection,
}

pub struct InstanceScopedReferenceView {
    pub port_name: Seq<char>,
    pub port_range: TextRange,
    pub instance_name: Seq<char>,
    pub instance_range: TextRange,
    pub direction: PortDirection,
}

impl View for InstanceScopedReference {
    type V = InstanceScopedReferenceView;

    open spec fn view(&self) -> InstanceScopedReferenceView {
        InstanceScopedReferenceView {
            port_name: self.port_name@,
            port_range: self.port_range,
            instance_name: self.instance_name@,
            instance_range: self.instance_range,
            direction: self.direction,
        }
    }
}

/// The reference that starts at token `i`: the token, `provided` or
/// `required`, `by`, and a name.
pub open spec fn scoped_reference_spec(ts: Seq<TokenView>, i: int) -> Option<InstanceScopedReferenceView> {
    if 0 <= i && i + 3 < ts.len() && (ts[i + 1].text == "provided"@ || ts[i + 1].text == "required"@)
        && ts[i + 2].text == "by"@ && is_symbol_spec(ts[i + 3]) {
        Some(
            InstanceScopedReferenceView {
                port_name: ts[i].text,
                port_range: ts[i].range,
                instance_name: ts[i + 3].text,
                instance_range: ts[i + 3].range,
                direction: if ts[i + 1].text == "provided"@ {
                    PortDirection::Provided
                } else {
                    PortDirection::Required
                },
            },
        )
    } else {
        None
    }
}

pub fn instance_scoped_reference_at_tokens(tokens: &[Token], index: usize) -> (r: Option<InstanceScopedReference>)
    ensures
        match r {
            Some(x) => scoped_reference_spec(tokens_view(tokens@), index as int) == Some(x@),
            None => scoped_reference_spec(tokens_view(tokens@), index as int) is None,
        },
{
    let ghost tv = tokens_view(tokens@);
    if index >= tokens.len() || tokens.len() - index <= 3 {
        return None;
    }
    let direction_token = &tokens[index + 1];
    let by_token = &tokens[index + 2];
    let instance = &tokens[index + 3];
    assert(tv[index + 1] == direction_token@);
    assert(tv[index + 2] == by_token@);
    assert(tv[index + 3] == instance@);
    assert(tv[index as int] == tokens@[index as int]@);
    let direction = if text_is(direction_token, "provided") {
        PortDirection::Provided
    } else if text_is(direction_token, "required") {
        PortDirection::Required
    } else {
        return None;
    };
    if !text_is(by_token, "by") {
        return None;
    }
    if !(instance.kind == TokenKind::Ident || instance.kind == TokenKind::Keyword) {
        return None;
    }
    Some(
        InstanceScopedReference {
            port_name: tokens[index].text.clone(),
            port_range: tokens[index].range,
            instance_name: instance.text.clone(),
            instance_range: instance.range,
            direction,
        },
    )
}

/// The references scoped by an instance among the first `k` tokens.
pub open spec fn scoped_references_upto(sig: Seq<TokenView>, k: int) -> Seq<InstanceScopedReferenceView>
    decreases k,
{
    if k <= 0 {
        Seq::empty()
    } else {
        let p = scoped_references_upto(sig, k - 1);
        if is_symbol_spec(sig[k - 1]) {
            match scoped_reference_spec(sig, k - 1) {
                Some(r) => p.push(r),
                None => p,
            }
        } else {
            p
        }
    }
}

/// Every reference scoped by an instance in a text, in order.
pub open spec fn scoped_references_spec(source: Seq<char>) -> Seq<InstanceScopedReferenceView> {
    let sig = significant(lex_spec(source));
    scoped_references_upto(sig, sig.len() as int)
}

/// First significant token at or after `i` that is a name and holds the offset.
pub open spec fn first_name_at(sig: Seq<TokenView>, offset: int, i: int) -> Option<int>
    decreases sig.len() - i,
{
    if i < 0 || i >= sig.len() {
        None
    } else if is_symbol_spec(sig[i]) && contains_offset_spec(sig[i].range, offset) {
        Some(i)
    } else {
        first_name_at(sig, offset, i + 1)
    }
}

/// The reference scoped by an instance whose port name holds the offset.
pub open spec fn scoped_reference_at_spec(source: Seq<char>, offset: int) -> Option<InstanceScopedReferenceView> {
    let sig = significant(lex_spec(source));
    match first_name_at(sig, offset, 0) {
        Some(i) => scoped_reference_spec(sig, i),
        None => None,
    }
}

/// First port at or after `i` whose name range holds the offset.
pub open spec fn port_containing(ports: Seq<PortSymbolView>, offset: int, i: int) -> Option<int>
    decreases ports.len() - i,
{
    if i < 0 || i >= ports.len() {
        None
    } else if contains_offset_spec(ports[i].name_range, offset) {
        Some(i)
    } else {
        port_containing(ports, offset, i + 1)
    }
}

/// The declared port whose name holds the offset: provided ports first.
pub open spec fn port_at_spec(d: DocumentSymbolsView, offset: int) -> Option<(PortSymbolView, PortDirection)> {
    match port_containing(d.provides, offset, 0) {
        Some(i) => Some((d.provides[i], PortDirection::Provided)),
        None => match port_containing(d.requires, offset, 0) {
            Some(i) => Some((d.requires[i], PortDirection::Required)),
            None => None,
        },
    }
}

/// First port at or after `i` with this name.
pub open spec fn port_with_name(ports: Seq<PortSymbolView>, name: Seq<char>, i: int) -> Option<int>
    decreases ports.len() - i,
{
    if i < 0 || i >= ports.len() {
        None
    } else if ports[i].name == name {
        Some(i)
    } else {
        port_with_name(ports, name, i + 1)
    }
}

/// The ports of one side.
pub open spec fn ports_of(d: DocumentSymbolsView, direction: PortDirection) -> Seq<PortSymbolView> {
    match direction {
        PortDirection::Provided => d.provides,
        PortDirection::Required => d.requires,
    }
}

/// The first port of a side with this name.
pub open spec fn port_named_spec(d: DocumentSymbolsView, direction: PortDirection, name: Seq<char>) -> Option<
    PortSymbolView,
> {
    match port_with_name(ports_of(d, direction), name, 0) {
        Some(i) => Some(ports_of(d, direction)[i]),
        None => None,
    }
}

/// First assignment at or after `i` with this name.
pub open spec fn assignment_with_name(a: Seq<AssignmentSymbolView>, name: Seq<char>, i: int) -> Option<int>
    decreases a.len() - i,
{
    if i < 0 || i >= a.len() {
        None
    } else if a[i].name == name {
        Some(i)
    } else {
        assignment_with_name(a, name, i + 1)
    }
}

/// A hover: the range it covers and its markdown text.
#[derive(Debug, PartialEq, Eq)]
pub struct HoverInfo {
    pub range: TextRange,
    pub contents: String,
}

pub struct HoverInfoView {
    pub range: TextRange,
    pub contents: Seq<char>,
}

impl View for HoverInfo {
    type V = HoverInfoView;

    open spec fn view(&self) -> HoverInfoView {
        HoverInfoView { range: self.range, contents: self.contents@ }
    }
}

pub open spec fn opt_hover(o: Option<HoverInfo>) -> Option<HoverInfoView> {
    match o {
        Some(h) => Some(h@),
        None => None,
    }
}

/// First token at or after `i` (trivia included) that holds the offset.
pub open spec fn token_containing(ts: Seq<TokenView>, offset: int, i: int) -> Option<int>
    decreases ts.len() - i,
{
    if i < 0 || i >= ts.len() {
        None
    } else if contains_offset_spec(ts[i].range, offset) {
        Some(i)
    } else {
        token_containing(ts, offset, i + 1)
    }
}

/// The hover of the language term or primitive poset at the offset.
pub open spec fn term_hover_at_spec(source: Seq<char>, offset: int) -> Option<HoverInfoView> {
    let ts = lex_spec(source);
    match token_containing(ts, offset, 0) {
        None => None,
        Some(i) => match term_hover_spec(ts[i].text) {
            Some(h) => Some(HoverInfoView { range: ts[i].range, contents: h }),
            None => match primitive_hover_spec(ts[i].text) {
                Some(h) => Some(HoverInfoView { range: ts[i].range, contents: h }),
                None => None,
            },
        },
    }
}

impl DocumentSymbols {
    /// The reference scoped by an instance whose port name holds the offset.
    pub fn instance_scoped_reference_at(&self, offset: usize) -> (r: Option<InstanceScopedReference>)
        ensures
            match r {
                Some(x) => scoped_reference_at_spec(self@.source, offset as int) == Some(x@),
                None => scoped_reference_at_spec(self@.source, offset as int) is None,
            },
    {
        let tokens = significant_tokens(self.source.as_str());
        let ghost sig = tokens_view(tokens@);
        let mut i: usize = 0;
        while i < tokens.len()
            invariant
                i <= tokens@.len(),
                sig == tokens_view(tokens@),
                sig == significant(lex_spec(self@.source)),
                first_name_at(sig, offset as int, 0) == first_name_at(sig, offset as int, i as int),
            decreases tokens@.len() - i,
        {
            let t = &tokens[i];
            assert(sig[i as int] == t@);
            if (t.kind == TokenKind::Ident || t.kind == TokenKind::Keyword) && contains_offset(t.range, offset) {
                return instance_scoped_reference_at_tokens(tokens.as_slice(), i);
            }
            i = i + 1;
        }
        None
    }

    /// Every reference scoped by an instance in the document, in order.
    pub fn instance_scoped_references(&self) -> (r: Vec<InstanceScopedReference>)
        ensures
            views(r@) == scoped_references_spec(self@.source),
    {
        let tokens = significant_tokens(self.source.as_str());
        let ghost sig = tokens_view(tokens@);
        let mut out: Vec<InstanceScopedReference> = Vec::new();
        let mut i: usize = 0;
        while i < tokens.len()
            invariant
                i <= tokens@.len(),
                sig == tokens_view(tokens@),
                views(out@) == scoped_references_upto(sig, i as int),
            decreases tokens@.len() - i,
        {
            let t = &tokens[i];
            assert(sig[i as int] == t@);
            if t.kind == TokenKind::Ident || t.kind == TokenKind::Keyword {
                if let Some(x) = instance_scoped_reference_at_tokens(tokens.as_slice(), i) {
                    proof {
                        lemma_views_push(out@, x);
                    }
                    out.push(x);
                }
            }
            i = i + 1;
        }
        out
    }

    /// The declared port whose name holds the offset, with its side;
    /// provided ports are looked at first.
    pub fn port_at(&self, offset: usize) -> (r: Option<(&PortSymbol, PortDirection)>)
        ensures
            match r {
                Some((p, d)) => port_at_spec(self@, offset as int) == Some((p@, d)),
                None => port_at_spec(self@, offset as int) is None,
            },
    {
        match first_port_containing(&self.provides, offset) {
            Some(i) => Some((&self.provides[i], PortDirection::Provided)),
            None => match first_port_containing(&self.requires, offset) {
                Some(i) => Some((&self.requires[i], PortDirection::Required)),
                None => None,
            },
        }
    }

    /// The first port of a side with this name.
    pub fn port_named(&self, direction: PortDirection, name: &str) -> (r: Option<&PortSymbol>)
        ensures
            match r {
                Some(p) => port_named_spec(self@, direction, name@) == Some(p@),
                None => port_named_spec(self@, direction, name@) is None,
            },
    {
        let ports = match direction {
            PortDirection::Provided => &self.provides,
            PortDirection::Required => &self.requires,
        };
        let ghost pv = views(ports@);
        assert(pv == ports_of(self@, direction));
        let mut i: usize = 0;
        while i < ports.len()
            invariant
                i <= ports@.len(),
                pv == views(ports@),
                pv == ports_of(self@, direction),
                port_with_name(pv, name@, 0) == port_with_name(pv, name@, i as int),
            decreases ports@.len() - i,
        {
            assert(pv[i as int] == ports@[i as int]@);
            if str_eq(ports[i].name.as_str(), name) {
                return Some(&ports[i]);
            }
            i = i + 1;
        }
        None
    }

    /// The first assignment with this name.
    pub fn assignment_named(&self, name: &str) -> (r: Option<&AssignmentSymbol>)
        ensures
            match r {
                Some(a) => assignment_with_name(self@.assignments, name@, 0) matches Some(i)
                    && self@.assignments[i] == a@,
                None => assignment_with_name(self@.assignments, name@, 0) is None,
            },
    {
        let ghost av = views(self.assignments@);
        let mut i: usize = 0;
        while i < self.assignments.len()
            invariant
                i <= self.assignments@.len(),
                av == views(self.assignments@),
                av == self@.assignments,
                assignment_with_name(av, name@, 0) == assignment_with_name(av, name@, i as int),
            decreases self.assignments@.len() - i,
        {
            assert(av[i as int] == self.assignments@[i as int]@);
            if str_eq(self.assignments[i].name.as_str(), name) {
                return Some(&self.assignments[i]);
            }
            i = i + 1;
        }
        None
    }

    /// The hover of the language term or primitive poset at the offset.
    pub fn term_hover_at(&self, offset: usize) -> (r: Option<HoverInfo>)
        ensures
            opt_hover(r) == term_hover_at_spec(self@.source, offset as int),
    {
        let tokens = lex(self.source.as_str());
        let ghost tv = tokens_view(tokens@);
        let mut i: usize = 0;
        while i < tokens.len()
            invariant
                i <= tokens@.len(),
                tv == tokens_view(tokens@),
                tv == lex_spec(self@.source),
                token_containing(tv, offset as int, 0) == token_containing(tv, offset as int, i as int),
            decreases tokens@.len() - i,
        {
            let t = &tokens[i];
            assert(tv[i as int] == t@);
            if contains_offset(t.range, offset) {
                let text = t.text.as_str();
                return match term_hover_text(text) {
                    Some(h) => Some(HoverInfo { range: t.range, contents: h.to_owned() }),
                    None => match primitive_poset_hover_text(text) {
                        Some(h) => Some(HoverInfo { range: t.range, contents: h }),
                        None => None,
                    },
                };
            }
            i = i + 1;
        }
        None
    }
}

fn first_port_containing(ports: &Vec<PortSymbol>, offset: usize) -> (r: Option<usize>)
    ensures
        match r {
            Some(i) => i < ports@.len() && port_containing(views(ports@), offset as int, 0) == Some(i as int),
            None => port_containing(views(ports@), offset as int, 0) is None,
        },
{
    let ghost pv = views(ports@);
    let mut i: usize = 0;
    while i < ports.len()
        invariant
            i <= ports@.len(),
            pv == views(ports@),
            port_containing(pv, offset as int, 0) == port_containing(pv, offset as int, i as int),
        decreases ports@.len() - i,
    {
        assert(pv[i as int] == ports@[i as int]@);
        if contains_offset(ports[i].name_range, offset) {
            return Some(i);
        }
        i = i + 1;
    }
    None
}

} // verus!
