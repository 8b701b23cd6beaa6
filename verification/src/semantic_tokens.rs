//! Semantic-token encoding for highlighting: the legend of token types, the
//! type of each lexical token, and the relative encoding of token segments.

use vstd::prelude::*;
use crate::line_index::{sat_sub_u32, token_segments_spec, LineIndex, TokenSegment};
use crate::source::TextRange;
use crate::lookup::{scoped_references_spec, InstanceScopedReference, InstanceScopedReferenceView};
use crate::symbols::{views, DocumentSymbols, DocumentSymbolsView, PortDirection, PortSymbol, PortSymbolView};
use crate::syntax::{lex, lex_spec, tokens_view, DocumentKind, TokenKind, TokenView};
use crate::text::str_eq;

verus! {

pub const TOKEN_TYPE_KEYWORD: u32 = 0;
pub const TOKEN_TYPE_VARIABLE: u32 = 1;
pub const TOKEN_TYPE_NUMBER: u32 = 2;
pub const TOKEN_TYPE_STRING: u32 = 3;
pub const TOKEN_TYPE_COMMENT: u32 = 4;
pub const TOKEN_TYPE_OPERATOR: u32 = 5;
pub const TOKEN_TYPE_PROVIDED_VARIABLE: u32 = 6;
pub const TOKEN_TYPE_REQUIRED_VARIABLE: u32 = 7;
pub const TOKEN_TYPE_INSTANCE: u32 = 8;
pub const TOKEN_TYPE_MODEL_REFERENCE: u32 = 9;
pub const TOKEN_TYPE_RESOURCE_BINDING: u32 = 10;
pub const TOKEN_TYPE_DOCUMENT_KIND: u32 = 11;
pub const TOKEN_TYPE_TEMPLATE_REFERENCE: u32 = 12;
pub const TOKEN_TYPE_LIBRARY: u32 = 13;

/// The names of the token types, in the order of their numbers.
pub open spec fn legend_spec() -> Seq<Seq<char>> {
    seq![
        "keyword"@,
        "variable"@,
        "number"@,
        "string"@,
        "comment"@,
        "operator"@,
        "mcdplProvidedVariable"@,
        "mcdplRequiredVariable"@,
        "mcdplInstance"@,
        "mcdplModelReference"@,
        "mcdplResourceBinding"@,
        "mcdplDocumentKind"@,
        "mcdplTemplateReference"@,
        "mcdplLibrary"@,
    ]
}

pub fn legend() -> (r: Vec<&'static str>)
    ensures
        crate::declaration::strs_view(r@) == legend_spec(),
{
    let v: Vec<&'static str> = vec![
        "keyword",
        "variable",
        "number",
        "string",
        "comment",
        "operator",
        "mcdplProvidedVariable",
        "mcdplRequiredVariable",
        "mcdplInstance",
        "mcdplModelReference",
        "mcdplResourceBinding",
        "mcdplDocumentKind",
        "mcdplTemplateReference",
        "mcdplLibrary",
    ];
    assert(crate::declaration::strs_view(v@) =~= legend_spec());
    v
}

/// The token type of a lexical token kind; whitespace, line breaks,
/// punctuation and unknown characters get none.
pub open spec fn token_type_spec(kind: TokenKind) -> Option<u32> {
    match kind {
        TokenKind::Keyword => Some(TOKEN_TYPE_KEYWORD),
        TokenKind::Ident => Some(TOKEN_TYPE_VARIABLE),
        TokenKind::Number => Some(TOKEN_TYPE_NUMBER),
        TokenKind::String => Some(TOKEN_TYPE_STRING),
        TokenKind::Comment => Some(TOKEN_TYPE_COMMENT),
        TokenKind::Operator => Some(TOKEN_TYPE_OPERATOR),
        _ => None,
    }
}

pub fn semantic_token_type(kind: TokenKind) -> (r: Option<u32>)
    ensures
        r == token_type_spec(kind),
{
    match kind {
        TokenKind::Keyword => Some(TOKEN_TYPE_KEYWORD),
        TokenKind::Ident => Some(TOKEN_TYPE_VARIABLE),
        TokenKind::Number => Some(TOKEN_TYPE_NUMBER),
        TokenKind::String => Some(TOKEN_TYPE_STRING),
        TokenKind::Comment => Some(TOKEN_TYPE_COMMENT),
        TokenKind::Operator => Some(TOKEN_TYPE_OPERATOR),
        TokenKind::Whitespace | TokenKind::Newline | TokenKind::Punctuation | TokenKind::Unknown => None,
    }
}

/// Whether `candidate` lies within `container`.
pub open spec fn contains_range_spec(container: TextRange, candidate: TextRange) -> bool {
    candidate.start >= container.start && candidate.end <= container.end
}

/// Whether `candidate` lies within `container`.
pub fn contains_range(container: TextRange, candidate: TextRange) -> (r: bool)
    ensures
        r == contains_range_spec(container, candidate),
{
    candidate.start >= container.start && candidate.end <= container.end
}

/// Whether a token kind names something.
pub fn is_name_token(kind: TokenKind) -> (r: bool)
    ensures
        r == (kind == TokenKind::Ident || kind == TokenKind::Keyword),
{
    kind == TokenKind::Ident || kind == TokenKind::Keyword
}

/// A token segment encoded relative to the previous one.
#[derive(Clone, Copy, Debug, PartialEq, Eq, Structural)]
pub struct EncodedToken {
    pub delta_line: u32,
    pub delta_start: u32,
    pub length: u32,
    pub token_type: u32,
    pub token_modifiers_bitset: u32,
}

/// Encoding state: the previous segment's line and start, and the tokens so far.
pub struct EncodeState {
    pub line: u32,
    pub start: u32,
    pub data: Seq<EncodedToken>,
}

/// Appending a segment: empty segments are skipped; the line is relative to
/// the previous segment's line, and the start relative to the previous start
/// on the same line.
pub open spec fn encode_segment(st: EncodeState, g: TokenSegment, ty: u32) -> EncodeState {
    if g.length == 0 {
        st
    } else {
        let dl = sat_sub_u32(g.line, st.line);
        let ds = if dl == 0 {
            sat_sub_u32(g.start, st.start)
        } else {
            g.start
        };
        EncodeState {
            line: g.line,
            start: g.start,
            data: st.data.push(
                EncodedToken {
                    delta_line: dl,
                    delta_start: ds,
                    length: g.length,
                    token_type: ty,
                    token_modifiers_bitset: 0,
                },
            ),
        }
    }
}

pub open spec fn encode_segments(st: EncodeState, gs: Seq<TokenSegment>, ty: u32) -> EncodeState
    decreases gs.len(),
{
    if gs.len() == 0 {
        st
    } else {
        encode_segment(encode_segments(st, gs.drop_last(), ty), gs.last(), ty)
    }
}

// ---------------------------------------------------------------------------
// Roles from the symbols of the document
// ---------------------------------------------------------------------------

/// What the symbols of a document decide for a token: a type of their own,
/// or no token at all.
#[derive(Clone, Copy, Debug, PartialEq, Eq, Structural)]
pub enum RoleDecision {
    Token(u32),
    Suppress,
}

pub open spec fn is_name_kind(kind: TokenKind) -> bool {
    kind == TokenKind::Ident || kind == TokenKind::Keyword
}

/// A string token that holds the path of a resource binding.
pub open spec fn is_resource_path_spec(d: DocumentSymbolsView, kind: TokenKind, range: TextRange) -> bool {
    kind == TokenKind::String && exists|i: int|
        0 <= i < d.resource_bindings.len() && #[trigger] contains_range_spec(range, d.resource_bindings[i].path_range)
}

/// `dp` or `mcdp` as the first token of the document.
pub open spec fn is_document_kind_spec(d: DocumentSymbolsView, text: Seq<char>, kind: TokenKind, range: TextRange) -> bool {
    is_name_kind(kind) && (text == "dp"@ || text == "mcdp"@) && d.definition_range == range
}

/// The range from a resource binding's statement start to its path.
pub open spec fn binding_prefix(d: DocumentSymbolsView, i: int) -> TextRange {
    TextRange { start: d.resource_bindings[i].declaration_range.start, end: d.resource_bindings[i].path_range.start }
}

/// A token of a resource binding before its path.
pub open spec fn is_resource_binding_prefix_spec(d: DocumentSymbolsView, kind: TokenKind, range: TextRange) -> bool {
    !(kind == TokenKind::Whitespace || kind == TokenKind::Newline || kind == TokenKind::String
        || kind == TokenKind::Comment || kind == TokenKind::Number || kind == TokenKind::Unknown)
        && exists|i: int| 0 <= i < d.resource_bindings.len() && #[trigger] contains_range_spec(binding_prefix(d, i), range)
}

/// A model reference inside the declaration of instance `i`.
pub open spec fn instance_holds_reference(d: DocumentSymbolsView, i: int, range: TextRange) -> bool {
    (d.instances[i].model matches Some(m) && m.name_range == range) || exists|j: int|
        0 <= j < d.model_references.len() && d.model_references[j].name_range == range
            && #[trigger] contains_range_spec(d.instances[i].declaration_range, d.model_references[j].reference_range)
}

/// The model name of an instance declaration.
pub open spec fn is_instance_model_reference_spec(d: DocumentSymbolsView, range: TextRange) -> bool {
    exists|i: int| 0 <= i < d.instances.len() && #[trigger] instance_holds_reference(d, i, range)
}

/// The name of a model reference.
pub open spec fn is_model_reference_spec(d: DocumentSymbolsView, range: TextRange) -> bool {
    exists|j: int| 0 <= j < d.model_references.len() && #[trigger] d.model_references[j].name_range == range
}

/// First reference at or after `i` whose port name is at this range.
pub open spec fn scoped_reference_with_range(refs: Seq<InstanceScopedReferenceView>, range: TextRange, i: int) -> Option<int>
    decreases refs.len() - i,
{
    if i < 0 || i >= refs.len() {
        None
    } else if refs[i].port_range == range {
        Some(i)
    } else {
        scoped_reference_with_range(refs, range, i + 1)
    }
}

/// A declaration of a port of these.
pub open spec fn declares_port_spec(ports: Seq<PortSymbolView>, range: TextRange) -> bool {
    exists|j: int| 0 <= j < ports.len() && #[trigger] ports[j].name_range == range
}

/// A name token that names a port of these.
pub open spec fn names_port_spec(ports: Seq<PortSymbolView>, text: Seq<char>, kind: TokenKind) -> bool {
    is_name_kind(kind) && exists|j: int| 0 <= j < ports.len() && #[trigger] ports[j].name == text
}

/// The declaration of an instance's name.
pub open spec fn declares_instance_spec(d: DocumentSymbolsView, range: TextRange) -> bool {
    exists|j: int| 0 <= j < d.instances.len() && #[trigger] d.instances[j].name_range == range
}

/// A name token that names an instance.
pub open spec fn names_instance_spec(d: DocumentSymbolsView, text: Seq<char>, kind: TokenKind) -> bool {
    is_name_kind(kind) && exists|j: int| 0 <= j < d.instances.len() && #[trigger] d.instances[j].name == text
}

/// The template that a `specialize` document instantiates.
pub open spec fn is_specialize_target_spec(d: DocumentSymbolsView, range: TextRange) -> bool {
    d.specialize_target matches Some(t) && t.name_range == range
}

/// The template of instance `i` where it specializes one.
pub open spec fn instance_template_at(d: DocumentSymbolsView, i: int, range: TextRange) -> bool {
    d.instances[i].specializes_template && (d.instances[i].model matches Some(m) && m.name_range == range)
}

/// The template that an `instance specialize [...]` binding instantiates.
pub open spec fn is_instance_template_spec(d: DocumentSymbolsView, range: TextRange) -> bool {
    exists|i: int| 0 <= i < d.instances.len() && #[trigger] instance_template_at(d, i, range)
}

/// The library named in a `from library <lib> import ...` statement.
pub open spec fn is_import_library_spec(d: DocumentSymbolsView, range: TextRange) -> bool {
    exists|i: int| 0 <= i < d.imports.len() && #[trigger] d.imports[i].library_range == Some(range)
}

/// A name that an import brings in.
pub open spec fn is_import_name_spec(d: DocumentSymbolsView, range: TextRange) -> bool {
    exists|i: int| 0 <= i < d.imports.len() && #[trigger] d.imports[i].imported_name_ranges.contains(range)
}

/// The role of a token by the symbols of its document, the first rule that
/// holds deciding.
pub open spec fn role_spec(
    d: DocumentSymbolsView,
    refs: Seq<InstanceScopedReferenceView>,
    text: Seq<char>,
    kind: TokenKind,
    range: TextRange,
) -> Option<RoleDecision> {
    if is_resource_path_spec(d, kind, range) {
        Some(RoleDecision::Suppress)
    } else if is_document_kind_spec(d, text, kind, range) {
        Some(RoleDecision::Token(TOKEN_TYPE_DOCUMENT_KIND))
    } else if is_resource_binding_prefix_spec(d, kind, range) {
        Some(RoleDecision::Token(TOKEN_TYPE_RESOURCE_BINDING))
    } else if is_specialize_target_spec(d, range) {
        Some(RoleDecision::Token(TOKEN_TYPE_TEMPLATE_REFERENCE))
    } else if is_instance_template_spec(d, range) {
        Some(RoleDecision::Token(TOKEN_TYPE_TEMPLATE_REFERENCE))
    } else if is_import_library_spec(d, range) {
        Some(RoleDecision::Token(TOKEN_TYPE_LIBRARY))
    } else if is_import_name_spec(d, range) {
        Some(RoleDecision::Token(TOKEN_TYPE_MODEL_REFERENCE))
    } else if is_instance_model_reference_spec(d, range) {
        Some(RoleDecision::Token(TOKEN_TYPE_INSTANCE))
    } else if d.kind == Some(DocumentKind::Specialize) && is_model_reference_spec(d, range)
        && !is_specialize_target_spec(d, range) {
        Some(RoleDecision::Token(TOKEN_TYPE_INSTANCE))
    } else if is_model_reference_spec(d, range) {
        Some(RoleDecision::Token(TOKEN_TYPE_MODEL_REFERENCE))
    } else if let Some(i) = scoped_reference_with_range(refs, range, 0) {
        Some(
            RoleDecision::Token(
                match refs[i].direction {
                    PortDirection::Provided => TOKEN_TYPE_PROVIDED_VARIABLE,
                    PortDirection::Required => TOKEN_TYPE_REQUIRED_VARIABLE,
                },
            ),
        )
    } else if declares_port_spec(d.provides, range) {
        Some(RoleDecision::Token(TOKEN_TYPE_PROVIDED_VARIABLE))
    } else if declares_port_spec(d.requires, range) {
        Some(RoleDecision::Token(TOKEN_TYPE_REQUIRED_VARIABLE))
    } else if declares_instance_spec(d, range) {
        Some(RoleDecision::Token(TOKEN_TYPE_INSTANCE))
    } else if names_instance_spec(d, text, kind) {
        Some(RoleDecision::Token(TOKEN_TYPE_INSTANCE))
    } else if names_port_spec(d.provides, text, kind) {
        Some(RoleDecision::Token(TOKEN_TYPE_PROVIDED_VARIABLE))
    } else if names_port_spec(d.requires, text, kind) {
        Some(RoleDecision::Token(TOKEN_TYPE_REQUIRED_VARIABLE))
    } else {
        None
    }
}

/// The symbols of a document with its references scoped by an instance.
pub struct DocumentSemanticRoles<'a> {
    pub symbols: &'a DocumentSymbols,
    pub instance_scoped_references: Vec<InstanceScopedReference>,
}

impl<'a> DocumentSemanticRoles<'a> {
    pub fn new(symbols: &'a DocumentSymbols) -> (r: DocumentSemanticRoles<'a>)
        ensures
            r.symbols == symbols,
            views(r.instance_scoped_references@) == scoped_references_spec(symbols@.source),
    {
        DocumentSemanticRoles { symbols, instance_scoped_references: symbols.instance_scoped_references() }
    }

    /// The role that the symbols give a token, if any.
    pub fn token_type(&self, text: &str, kind: TokenKind, range: TextRange) -> (r: Option<RoleDecision>)
        ensures
            r == role_spec(self.symbols@, views(self.instance_scoped_references@), text@, kind, range),
    {
        let d = self.symbols;
        if kind == TokenKind::String && any_path_within(d, range) {
            return Some(RoleDecision::Suppress);
        }
        if is_name_token(kind) && (str_eq(text, "dp") || str_eq(text, "mcdp")) && d.definition_range == range {
            return Some(RoleDecision::Token(TOKEN_TYPE_DOCUMENT_KIND));
        }
        let prefix_kind = !(kind == TokenKind::Whitespace || kind == TokenKind::Newline || kind == TokenKind::String
            || kind == TokenKind::Comment || kind == TokenKind::Number || kind == TokenKind::Unknown);
        if prefix_kind && any_binding_prefix_holds(d, range) {
            return Some(RoleDecision::Token(TOKEN_TYPE_RESOURCE_BINDING));
        }
        let specialize_target = match &d.specialize_target {
            Some(t) => t.name_range == range,
            None => false,
        };
        if specialize_target {
            return Some(RoleDecision::Token(TOKEN_TYPE_TEMPLATE_REFERENCE));
        }
        if any_instance_template(d, range) {
            return Some(RoleDecision::Token(TOKEN_TYPE_TEMPLATE_REFERENCE));
        }
        if any_import_library(d, range) {
            return Some(RoleDecision::Token(TOKEN_TYPE_LIBRARY));
        }
        if any_import_name(d, range) {
            return Some(RoleDecision::Token(TOKEN_TYPE_MODEL_REFERENCE));
        }
        if any_instance_model_reference(d, range) {
            return Some(RoleDecision::Token(TOKEN_TYPE_INSTANCE));
        }
        let model_reference = any_model_reference(d, range);
        if d.kind == Some(DocumentKind::Specialize) && model_reference && !specialize_target {
            return Some(RoleDecision::Token(TOKEN_TYPE_INSTANCE));
        }
        if model_reference {
            return Some(RoleDecision::Token(TOKEN_TYPE_MODEL_REFERENCE));
        }
        if let Some(direction) = self.instance_scoped_variable_direction(range) {
            return Some(
                RoleDecision::Token(
                    match direction {
                        PortDirection::Provided => TOKEN_TYPE_PROVIDED_VARIABLE,
                        PortDirection::Required => TOKEN_TYPE_REQUIRED_VARIABLE,
                    },
                ),
            );
        }
        if any_port_declared_at(&d.provides, range) {
            return Some(RoleDecision::Token(TOKEN_TYPE_PROVIDED_VARIABLE));
        }
        if any_port_declared_at(&d.requires, range) {
            return Some(RoleDecision::Token(TOKEN_TYPE_REQUIRED_VARIABLE));
        }
        if any_instance_declared_at(d, range) {
            return Some(RoleDecision::Token(TOKEN_TYPE_INSTANCE));
        }
        if is_name_token(kind) && any_instance_named(d, text) {
            return Some(RoleDecision::Token(TOKEN_TYPE_INSTANCE));
        }
        if is_name_token(kind) && any_port_named(&d.provides, text) {
            return Some(RoleDecision::Token(TOKEN_TYPE_PROVIDED_VARIABLE));
        }
        if is_name_token(kind) && any_port_named(&d.requires, text) {
            return Some(RoleDecision::Token(TOKEN_TYPE_REQUIRED_VARIABLE));
        }
        None
    }

    fn instance_scoped_variable_direction(&self, range: TextRange) -> (r: Option<PortDirection>)
        ensures
            r == (match scoped_reference_with_range(views(self.instance_scoped_references@), range, 0) {
                Some(i) => Some(views(self.instance_scoped_references@)[i].direction),
                None => None,
            }),
    {
        let refs = &self.instance_scoped_references;
        let ghost rv = views(refs@);
        let mut i: usize = 0;
        while i < refs.len()
            invariant
                i <= refs@.len(),
                rv == views(refs@),
                rv == views(self.instance_scoped_references@),
                scoped_reference_with_range(rv, range, 0) == scoped_reference_with_range(rv, range, i as int),
            decreases refs@.len() - i,
        {
            assert(rv[i as int] == refs@[i as int]@);
            if refs[i].port_range == range {
                return Some(refs[i].direction);
            }
            i = i + 1;
        }
        None
    }
}

fn any_instance_template(d: &DocumentSymbols, range: TextRange) -> (r: bool)
    ensures
        r == is_instance_template_spec(d@, range),
{
    let v = &d.instances;
    let ghost iv = d@.instances;
    let mut i: usize = 0;
    while i < v.len()
        invariant
            i <= v@.len(),
            iv == views(v@),
            iv == d@.instances,
            forall|j: int| 0 <= j < i ==> !#[trigger] instance_template_at(d@, j, range),
        decreases v@.len() - i,
    {
        assert(iv[i as int] == v@[i as int]@);
        let holds = v[i].specializes_template && match &v[i].model {
            Some(m) => {
                assert(iv[i as int].model == Some(m@));
                m.name_range == range
            },
            None => false,
        };
        if holds {
            assert(instance_template_at(d@, i as int, range));
            return true;
        }
        assert(!instance_template_at(d@, i as int, range));
        i = i + 1;
    }
    false
}

fn any_import_library(d: &DocumentSymbols, range: TextRange) -> (r: bool)
    ensures
        r == is_import_library_spec(d@, range),
{
    let v = &d.imports;
    let ghost mv = d@.imports;
    let mut i: usize = 0;
    while i < v.len()
        invariant
            i <= v@.len(),
            mv == views(v@),
            mv == d@.imports,
            forall|j: int| 0 <= j < i ==> !(#[trigger] mv[j].library_range == Some(range)),
        decreases v@.len() - i,
    {
        assert(mv[i as int] == v@[i as int]@);
        let holds = match v[i].library_range {
            Some(l) => l == range,
            None => false,
        };
        if holds {
            assert(mv[i as int].library_range == Some(range));
            return true;
        }
        i = i + 1;
    }
    false
}

fn range_listed(v: &Vec<TextRange>, range: TextRange) -> (r: bool)
    ensures
        r == v@.contains(range),
{
    let mut i: usize = 0;
    while i < v.len()
        invariant
            i <= v@.len(),
            forall|j: int| 0 <= j < i ==> v@[j] != range,
        decreases v@.len() - i,
    {
        if v[i] == range {
            assert(v@[i as int] == range);
            return true;
        }
        i = i + 1;
    }
    false
}

fn any_import_name(d: &DocumentSymbols, range: TextRange) -> (r: bool)
    ensures
        r == is_import_name_spec(d@, range),
{
    let v = &d.imports;
    let ghost mv = d@.imports;
    let mut i: usize = 0;
    while i < v.len()
        invariant
            i <= v@.len(),
            mv == views(v@),
            mv == d@.imports,
            forall|j: int| 0 <= j < i ==> !(#[trigger] mv[j].imported_name_ranges.contains(range)),
        decreases v@.len() - i,
    {
        assert(mv[i as int] == v@[i as int]@);
        if range_listed(&v[i].imported_name_ranges, range) {
            assert(mv[i as int].imported_name_ranges == v@[i as int].imported_name_ranges@);
            assert(mv[i as int].imported_name_ranges.contains(range));
            return true;
        }
        i = i + 1;
    }
    false
}

fn any_path_within(d: &DocumentSymbols, range: TextRange) -> (r: bool)
    ensures
        r == exists|i: int|
            0 <= i < d@.resource_bindings.len() && #[trigger] contains_range_spec(range, d@.resource_bindings[i].path_range),
{
    let v = &d.resource_bindings;
    let ghost rv = d@.resource_bindings;
    let mut i: usize = 0;
    while i < v.len()
        invariant
            i <= v@.len(),
            rv == views(v@),
            rv == d@.resource_bindings,
            forall|j: int| 0 <= j < i ==> !#[trigger] contains_range_spec(range, rv[j].path_range),
        decreases v@.len() - i,
    {
        assert(rv[i as int] == v@[i as int]@);
        if contains_range(range, v[i].path_range) {
            assert(contains_range_spec(range, rv[i as int].path_range));
            return true;
        }
        i = i + 1;
    }
    false
}

fn any_binding_prefix_holds(d: &DocumentSymbols, range: TextRange) -> (r: bool)
    ensures
        r == exists|i: int| 0 <= i < d@.resource_bindings.len() && #[trigger] contains_range_spec(binding_prefix(d@, i), range),
{
    let v = &d.resource_bindings;
    let ghost rv = d@.resource_bindings;
    let mut i: usize = 0;
    while i < v.len()
        invariant
            i <= v@.len(),
            rv == views(v@),
            rv == d@.resource_bindings,
            forall|j: int| 0 <= j < i ==> !#[trigger] contains_range_spec(binding_prefix(d@, j), range),
        decreases v@.len() - i,
    {
        assert(rv[i as int] == v@[i as int]@);
        let prefix = TextRange { start: v[i].declaration_range.start, end: v[i].path_range.start };
        assert(prefix == binding_prefix(d@, i as int));
        if contains_range(prefix, range) {
            assert(contains_range_spec(binding_prefix(d@, i as int), range));
            return true;
        }
        i = i + 1;
    }
    false
}

fn any_model_reference(d: &DocumentSymbols, range: TextRange) -> (r: bool)
    ensures
        r == is_model_reference_spec(d@, range),
{
    let v = &d.model_references;
    let ghost rv = d@.model_references;
    let mut i: usize = 0;
    while i < v.len()
        invariant
            i <= v@.len(),
            rv == views(v@),
            rv == d@.model_references,
            forall|j: int| 0 <= j < i ==> !(#[trigger] rv[j].name_range == range),
        decreases v@.len() - i,
    {
        assert(rv[i as int] == v@[i as int]@);
        if v[i].name_range == range {
            assert(rv[i as int].name_range == range);
            return true;
        }
        i = i + 1;
    }
    false
}

fn reference_inside(d: &DocumentSymbols, container: TextRange, range: TextRange) -> (r: bool)
    ensures
        r == exists|j: int|
            0 <= j < d@.model_references.len() && d@.model_references[j].name_range == range
                && #[trigger] contains_range_spec(container, d@.model_references[j].reference_range),
{
    let v = &d.model_references;
    let ghost rv = d@.model_references;
    let mut i: usize = 0;
    while i < v.len()
        invariant
            i <= v@.len(),
            rv == views(v@),
            rv == d@.model_references,
            forall|j: int|
                0 <= j < i ==> !(rv[j].name_range == range && #[trigger] contains_range_spec(container, rv[j].reference_range)),
        decreases v@.len() - i,
    {
        assert(rv[i as int] == v@[i as int]@);
        if v[i].name_range == range && contains_range(container, v[i].reference_range) {
            assert(contains_range_spec(container, rv[i as int].reference_range));
            return true;
        }
        i = i + 1;
    }
    false
}

fn any_instance_model_reference(d: &DocumentSymbols, range: TextRange) -> (r: bool)
    ensures
        r == is_instance_model_reference_spec(d@, range),
{
    let v = &d.instances;
    let ghost iv = d@.instances;
    let mut i: usize = 0;
    while i < v.len()
        invariant
            i <= v@.len(),
            iv == views(v@),
            iv == d@.instances,
            forall|j: int| 0 <= j < i ==> !#[trigger] instance_holds_reference(d@, j, range),
        decreases v@.len() - i,
    {
        assert(iv[i as int] == v@[i as int]@);
        let direct = match &v[i].model {
            Some(m) => {
                assert(iv[i as int].model == Some(m@));
                m.name_range == range
            },
            None => false,
        };
        if direct {
            assert(instance_holds_reference(d@, i as int, range));
            return true;
        }
        if reference_inside(d, v[i].declaration_range, range) {
            let ghost j = choose|j: int|
                0 <= j < d@.model_references.len() && d@.model_references[j].name_range == range
                    && #[trigger] contains_range_spec(v[i as int].declaration_range, d@.model_references[j].reference_range);
            assert(v[i as int].declaration_range == d@.instances[i as int].declaration_range);
            assert(contains_range_spec(d@.instances[i as int].declaration_range, d@.model_references[j].reference_range));
            assert(instance_holds_reference(d@, i as int, range));
            return true;
        }
        i = i + 1;
    }
    false
}

fn any_port_declared_at(v: &Vec<PortSymbol>, range: TextRange) -> (r: bool)
    ensures
        r == declares_port_spec(views(v@), range),
{
    let ghost pv = views(v@);
    let mut i: usize = 0;
    while i < v.len()
        invariant
            i <= v@.len(),
            pv == views(v@),
            forall|j: int| 0 <= j < i ==> !(#[trigger] pv[j].name_range == range),
        decreases v@.len() - i,
    {
        assert(pv[i as int] == v@[i as int]@);
        if v[i].name_range == range {
            assert(pv[i as int].name_range == range);
            return true;
        }
        i = i + 1;
    }
    false
}

fn any_port_named(v: &Vec<PortSymbol>, text: &str) -> (r: bool)
    ensures
        r == exists|j: int| 0 <= j < views(v@).len() && #[trigger] views(v@)[j].name == text@,
{
    let ghost pv = views(v@);
    let mut i: usize = 0;
    while i < v.len()
        invariant
            i <= v@.len(),
            pv == views(v@),
            forall|j: int| 0 <= j < i ==> !(#[trigger] pv[j].name == text@),
        decreases v@.len() - i,
    {
        assert(pv[i as int] == v@[i as int]@);
        if str_eq(v[i].name.as_str(), text) {
            assert(views(v@)[i as int].name == text@);
            return true;
        }
        i = i + 1;
    }
    false
}

fn any_instance_declared_at(d: &DocumentSymbols, range: TextRange) -> (r: bool)
    ensures
        r == declares_instance_spec(d@, range),
{
    let v = &d.instances;
    let ghost iv = d@.instances;
    let mut i: usize = 0;
    while i < v.len()
        invariant
            i <= v@.len(),
            iv == views(v@),
            iv == d@.instances,
            forall|j: int| 0 <= j < i ==> !(#[trigger] iv[j].name_range == range),
        decreases v@.len() - i,
    {
        assert(iv[i as int] == v@[i as int]@);
        if v[i].name_range == range {
            assert(iv[i as int].name_range == range);
            return true;
        }
        i = i + 1;
    }
    false
}

fn any_instance_named(d: &DocumentSymbols, text: &str) -> (r: bool)
    ensures
        r == exists|j: int| 0 <= j < d@.instances.len() && #[trigger] d@.instances[j].name == text@,
{
    let v = &d.instances;
    let ghost iv = d@.instances;
    let mut i: usize = 0;
    while i < v.len()
        invariant
            i <= v@.len(),
            iv == views(v@),
            iv == d@.instances,
            forall|j: int| 0 <= j < i ==> !(#[trigger] iv[j].name == text@),
        decreases v@.len() - i,
    {
        assert(iv[i as int] == v@[i as int]@);
        if str_eq(v[i].name.as_str(), text) {
            assert(iv[i as int].name == text@);
            return true;
        }
        i = i + 1;
    }
    false
}

// ---------------------------------------------------------------------------
// Encoding
// ---------------------------------------------------------------------------

/// The type of a token: the role the symbols give it, else its lexical type.
pub open spec fn effective_type(
    roles: Option<(DocumentSymbolsView, Seq<InstanceScopedReferenceView>)>,
    t: TokenView,
) -> Option<u32> {
    let decision = match roles {
        Some((d, refs)) => role_spec(d, refs, t.text, t.kind, t.range),
        None => None,
    };
    match decision {
        Some(RoleDecision::Token(ty)) => Some(ty),
        Some(RoleDecision::Suppress) => None,
        None => token_type_spec(t.kind),
    }
}

/// Encoding the first `k` tokens of a text.
pub open spec fn encode_tokens(
    s: Seq<char>,
    roles: Option<(DocumentSymbolsView, Seq<InstanceScopedReferenceView>)>,
    ts: Seq<TokenView>,
    k: int,
) -> EncodeState
    decreases k,
{
    if k <= 0 {
        EncodeState { line: 0, start: 0, data: Seq::empty() }
    } else {
        let st = encode_tokens(s, roles, ts, k - 1);
        match effective_type(roles, ts[k - 1]) {
            Some(ty) => encode_segments(st, token_segments_spec(s, ts[k - 1].range), ty),
            None => st,
        }
    }
}

/// The roles a document's symbols give, with its scoped references.
pub open spec fn roles_of(symbols: Option<DocumentSymbolsView>) -> Option<(DocumentSymbolsView, Seq<InstanceScopedReferenceView>)> {
    match symbols {
        Some(d) => Some((d, scoped_references_spec(d.source))),
        None => None,
    }
}

/// The semantic tokens of a text: each token typed by the role the symbols
/// give it, else by its lexical kind.
pub open spec fn semantic_tokens_spec(s: Seq<char>, symbols: Option<DocumentSymbolsView>) -> Seq<EncodedToken> {
    encode_tokens(s, roles_of(symbols), lex_spec(s), lex_spec(s).len() as int).data
}

pub open spec fn opt_symbols(o: Option<&DocumentSymbols>) -> Option<DocumentSymbolsView> {
    match o {
        Some(d) => Some(d@),
        None => None,
    }
}

/// Encodes the semantic tokens of a text: each token typed by the role the
/// document's symbols give it, else by its lexical kind.
pub fn semantic_tokens(source: &str, symbols: Option<&DocumentSymbols>) -> (r: Vec<EncodedToken>)
    ensures
        r@ == semantic_tokens_spec(source@, opt_symbols(symbols)),
{
    let line_index = LineIndex::new(source);
    let tokens = lex(source);
    let roles = match symbols {
        Some(d) => Some(DocumentSemanticRoles::new(d)),
        None => None,
    };
    let ghost rv = roles_of(opt_symbols(symbols));
    let ghost s = source@;
    let ghost tv = tokens_view(tokens@);
    assert(line_index@ == s);
    let mut previous_line: u32 = 0;
    let mut previous_start: u32 = 0;
    let mut data: Vec<EncodedToken> = Vec::new();
    let mut i: usize = 0;
    while i < tokens.len()
        invariant
            i <= tokens@.len(),
            line_index.wf(),
            line_index@ == s,
            tv == tokens_view(tokens@),
            tv == lex_spec(s),
            rv == roles_of(opt_symbols(symbols)),
            match roles {
                Some(x) => rv == Some((x.symbols@, views(x.instance_scoped_references@))),
                None => rv is None,
            },
            encode_tokens(s, rv, tv, i as int) == (EncodeState {
                line: previous_line,
                start: previous_start,
                data: data@,
            }),
        decreases tokens@.len() - i,
    {
        let token = &tokens[i];
        assert(tv[i as int] == token@);
        let decision = match &roles {
            Some(x) => x.token_type(token.text.as_str(), token.kind, token.range),
            None => None,
        };
        let token_type = match decision {
            Some(RoleDecision::Token(t)) => Some(t),
            Some(RoleDecision::Suppress) => None,
            None => semantic_token_type(token.kind),
        };
        assert(token_type == effective_type(rv, tv[i as int]));
        match token_type {
            Some(token_type) => {
                let segments = line_index.token_segments(token.range);
                let ghost base = EncodeState { line: previous_line, start: previous_start, data: data@ };
                let mut j: usize = 0;
                while j < segments.len()
                    invariant
                        j <= segments@.len(),
                        encode_segments(base, segments@.take(j as int), token_type) == (EncodeState {
                            line: previous_line,
                            start: previous_start,
                            data: data@,
                        }),
                    decreases segments@.len() - j,
                {
                    let segment = segments[j];
                    assert(segments@.take(j + 1).drop_last() =~= segments@.take(j as int));
                    if segment.length != 0 {
                        let delta_line = if segment.line >= previous_line {
                            segment.line - previous_line
                        } else {
                            0
                        };
                        let delta_start = if delta_line == 0 {
                            if segment.start >= previous_start {
                                segment.start - previous_start
                            } else {
                                0
                            }
                        } else {
                            segment.start
                        };
                        data.push(
                            EncodedToken {
                                delta_line,
                                delta_start,
                                length: segment.length,
                                token_type,
                                token_modifiers_bitset: 0,
                            },
                        );
                        previous_line = segment.line;
                        previous_start = segment.start;
                    }
                    j = j + 1;
                }
                assert(segments@.take(segments@.len() as int) =~= segments@);
            },
            None => {},
        }
        i = i + 1;
    }
    assert(tv.len() == tokens@.len());
    data
}

} // verus!
