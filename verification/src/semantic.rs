//! Statement-level lowering.
//!
//! This module consumes the recovered syntax tree and builds a typed but still
//! source-preserving semantic model. Expressions keep their source text next
//! to the parsed form.

use vstd::prelude::*;
use crate::declaration::{
    assignment_spec, catalog_record_spec, choice_decl_spec, implementation_spec,
    import_decl_spec, instance_decl_spec, interface_impl_spec, port_decl_spec, port_keyword,
    relation_spec,
    parse_catalog_record, parse_choice_decl, parse_implementation_decl,
    parse_import_decl, parse_instance_decl, parse_interface_impl_decl, parse_port_decl,
    split_assignment, split_relation,
};
use crate::diagnostic::{diagnostics_view, error_view, Diagnostic, DiagnosticView, Severity};
use crate::expression::{
    expr_view, exprs_view, opt_text, parse_expression_list_text, parse_expression_spec,
    parse_expression_text, expression_list_spec, Expression, ExprView,
};
use crate::graph::{
    Constraint, ConstraintView, DesignGraph, GraphView, Node, NodeView, Port, PortDirection,
    PortView, Relation,
};
use crate::poset::{copy_poset, poset_view, PosetRef, PosetView};
use crate::source::{SourceId, SpanView, TextRange, TextSpan};
use crate::split::{split_top_level_spec, strings_view};
use crate::syntax::{
    entries_view, statements_view, DocumentKind, EntryView, ParsedDocument, ParsedView,
    Statement, StatementKind, StatementView, SyntaxBody, SyntaxBodyView, SyntaxEntry,
};
use crate::text::{chars_of, join3, join5, str_eq};

verus! {

// ---------------------------------------------------------------------------
// The semantic model
// ---------------------------------------------------------------------------

/// Semantic representation recovered from one source document.
#[derive(Debug, PartialEq, Eq)]
pub struct SemanticModel {
    /// Source file or virtual document.
    pub source: SourceId,
    /// Top-level document kind.
    pub kind: DocumentKind,
    /// Public interface declarations.
    pub ports: Vec<PortDecl>,
    /// Subproblem instances.
    pub instances: Vec<InstanceDecl>,
    /// Formula aliases and constants.
    pub assignments: Vec<AssignmentDecl>,
    /// Order/refinement constraints.
    pub constraints: Vec<ConstraintDecl>,
    /// External implementation bindings.
    pub implementations: Vec<ImplementationDecl>,
    /// Implemented interface declarations.
    pub interfaces: Vec<InterfaceImplDecl>,
    /// Inline catalog records.
    pub catalog_records: Vec<CatalogRecordDecl>,
    /// Labeled entries from `choose (...)` or `intersection (...)` documents.
    pub choices: Vec<ChoiceDecl>,
    /// Explicit import declarations.
    pub imports: Vec<ImportDecl>,
    /// Template or specialization parameters preserved as source text.
    pub parameters: Vec<ParameterDecl>,
    /// Statements not yet understood by lowering.
    pub bare_expressions: Vec<BareExpressionDecl>,
}

/// Public interface declaration.
#[derive(Debug, PartialEq, Eq)]
pub struct PortDecl {
    /// Port name.
    pub name: String,
    /// Port direction.
    pub direction: PortDirection,
    /// Declared poset/type expression.
    pub poset: PosetRef,
    /// Source span.
    pub span: TextSpan,
}

/// Subproblem instance declaration.
#[derive(Clone, Debug, PartialEq, Eq)]
pub struct InstanceDecl {
    /// Local instance name.
    pub name: String,
    /// Referenced model name.
    pub model: String,
    /// Source span.
    pub span: TextSpan,
}

/// Formula assignment.
#[derive(Debug, PartialEq, Eq)]
pub struct AssignmentDecl {
    /// Assigned name or expression.
    pub target: String,
    /// Right-hand-side expression.
    pub expression: String,
    /// Parsed right-hand-side expression.
    pub expression_ast: Expression,
    /// Source span.
    pub span: TextSpan,
}

/// Constraint declaration.
#[derive(Debug, PartialEq, Eq)]
pub struct ConstraintDecl {
    /// Left expression text.
    pub left: String,
    /// Parsed left expression.
    pub left_expr: Expression,
    /// Relation.
    pub relation: Relation,
    /// Right expression text.
    pub right: String,
    /// Parsed right expression.
    pub right_expr: Expression,
    /// Source span.
    pub span: TextSpan,
}

/// External implementation binding.
#[derive(Clone, Debug, PartialEq, Eq)]
pub struct ImplementationDecl {
    /// Backend identifier, for example `yaml`.
    pub backend: String,
    /// Optional resource path.
    pub resource: Option<String>,
    /// Raw implementation text after `implemented-by`.
    pub raw: String,
    /// Source span.
    pub span: TextSpan,
}

/// Interface implementation declaration.
#[derive(Clone, Debug, PartialEq, Eq)]
pub struct InterfaceImplDecl {
    /// Referenced interface model name.
    pub name: String,
    /// Source span.
    pub span: TextSpan,
}

/// Inline catalog row split around its implementation marker.
#[derive(Debug, PartialEq, Eq)]
pub struct CatalogRecordDecl {
    /// Functionality values provided by this implementation.
    pub provides: String,
    /// Parsed functionality values.
    pub provided_values: Vec<Expression>,
    /// Implementation identifier.
    pub implementation: String,
    /// Requirement values needed by this implementation.
    pub required: String,
    /// Parsed requirement values.
    pub required_values: Vec<Expression>,
    /// Source span.
    pub span: TextSpan,
}

/// Labeled target declaration in a parenthesized composition document.
#[derive(Clone, Debug, PartialEq, Eq)]
pub struct ChoiceDecl {
    /// Entry label.
    pub name: String,
    /// Referenced model.
    pub target: String,
    /// Source span.
    pub span: TextSpan,
}

/// Import declaration.
#[derive(Clone, Debug, PartialEq, Eq)]
pub struct ImportDecl {
    /// Raw import statement.
    pub raw: String,
    /// Imported model names recovered from the statement.
    pub models: Vec<String>,
    /// Source span.
    pub span: TextSpan,
}

/// Template or specialization parameter.
#[derive(Clone, Debug, PartialEq, Eq)]
pub struct ParameterDecl {
    /// Raw parameter text.
    pub text: String,
    /// Source span.
    pub span: TextSpan,
}

/// Preserved source statement that lowering does not interpret yet.
#[derive(Clone, Debug, PartialEq, Eq)]
pub struct BareExpressionDecl {
    /// Raw expression text.
    pub text: String,
    /// Source span.
    pub span: TextSpan,
}

// ---------------------------------------------------------------------------
// Views
// ---------------------------------------------------------------------------

pub struct PortDeclView {
    pub name: Seq<char>,
    pub direction: PortDirection,
    pub poset: PosetView,
    pub span: SpanView,
}

pub struct InstanceDeclView {
    pub name: Seq<char>,
    pub model: Seq<char>,
    pub span: SpanView,
}

pub struct AssignmentDeclView {
    pub target: Seq<char>,
    pub expression: Seq<char>,
    pub expression_ast: ExprView,
    pub span: SpanView,
}

pub struct ConstraintDeclView {
    pub left: Seq<char>,
    pub left_expr: ExprView,
    pub relation: Relation,
    pub right: Seq<char>,
    pub right_expr: ExprView,
    pub span: SpanView,
}

pub struct ImplementationDeclView {
    pub backend: Seq<char>,
    pub resource: Option<Seq<char>>,
    pub raw: Seq<char>,
    pub span: SpanView,
}

pub struct CatalogRecordDeclView {
    pub provides: Seq<char>,
    pub provided_values: Seq<ExprView>,
    pub implementation: Seq<char>,
    pub required: Seq<char>,
    pub required_values: Seq<ExprView>,
    pub span: SpanView,
}

pub struct ImportDeclView {
    pub raw: Seq<char>,
    pub models: Seq<Seq<char>>,
    pub span: SpanView,
}

/// A declaration that is a text with a span (interfaces, choices keep a
/// second text in `target`; parameters and bare expressions leave it empty).
pub struct NamedSpanView {
    pub name: Seq<char>,
    pub target: Seq<char>,
    pub span: SpanView,
}

impl View for PortDecl {
    type V = PortDeclView;

    open spec fn view(&self) -> PortDeclView {
        PortDeclView {
            name: self.name@,
            direction: self.direction,
            poset: poset_view(self.poset),
            span: self.span@,
        }
    }
}

impl View for InstanceDecl {
    type V = InstanceDeclView;

    open spec fn view(&self) -> InstanceDeclView {
        InstanceDeclView { name: self.name@, model: self.model@, span: self.span@ }
    }
}

impl View for AssignmentDecl {
    type V = AssignmentDeclView;

    open spec fn view(&self) -> AssignmentDeclView {
        AssignmentDeclView {
            target: self.target@,
            expression: self.expression@,
            expression_ast: expr_view(self.expression_ast),
            span: self.span@,
        }
    }
}

impl View for ConstraintDecl {
    type V = ConstraintDeclView;

    open spec fn view(&self) -> ConstraintDeclView {
        ConstraintDeclView {
            left: self.left@,
            left_expr: expr_view(self.left_expr),
            relation: self.relation,
            right: self.right@,
            right_expr: expr_view(self.right_expr),
            span: self.span@,
        }
    }
}

impl View for ImplementationDecl {
    type V = ImplementationDeclView;

    open spec fn view(&self) -> ImplementationDeclView {
        ImplementationDeclView {
            backend: self.backend@,
            resource: opt_text(self.resource),
            raw: self.raw@,
            span: self.span@,
        }
    }
}

impl View for InterfaceImplDecl {
    type V = NamedSpanView;

    open spec fn view(&self) -> NamedSpanView {
        NamedSpanView { name: self.name@, target: Seq::empty(), span: self.span@ }
    }
}

impl View for CatalogRecordDecl {
    type V = CatalogRecordDeclView;

    open spec fn view(&self) -> CatalogRecordDeclView {
        CatalogRecordDeclView {
            provides: self.provides@,
            provided_values: exprs_view(self.provided_values@),
            implementation: self.implementation@,
            required: self.required@,
            required_values: exprs_view(self.required_values@),
            span: self.span@,
        }
    }
}

impl View for ChoiceDecl {
    type V = NamedSpanView;

    open spec fn view(&self) -> NamedSpanView {
        NamedSpanView { name: self.name@, target: self.target@, span: self.span@ }
    }
}

impl View for ImportDecl {
    type V = ImportDeclView;

    open spec fn view(&self) -> ImportDeclView {
        ImportDeclView { raw: self.raw@, models: strings_view(self.models@), span: self.span@ }
    }
}

impl View for ParameterDecl {
    type V = NamedSpanView;

    open spec fn view(&self) -> NamedSpanView {
        NamedSpanView { name: self.text@, target: Seq::empty(), span: self.span@ }
    }
}

impl View for BareExpressionDecl {
    type V = NamedSpanView;

    open spec fn view(&self) -> NamedSpanView {
        NamedSpanView { name: self.text@, target: Seq::empty(), span: self.span@ }
    }
}

pub open spec fn views_of<T: View>(s: Seq<T>) -> Seq<T::V> {
    s.map_values(|x: T| x@)
}

/// What a semantic model holds.
#[verifier::ext_equal]
pub struct ModelView {
    pub source: Seq<char>,
    pub kind: DocumentKind,
    pub ports: Seq<PortDeclView>,
    pub instances: Seq<InstanceDeclView>,
    pub assignments: Seq<AssignmentDeclView>,
    pub constraints: Seq<ConstraintDeclView>,
    pub implementations: Seq<ImplementationDeclView>,
    pub interfaces: Seq<NamedSpanView>,
    pub catalog_records: Seq<CatalogRecordDeclView>,
    pub choices: Seq<NamedSpanView>,
    pub imports: Seq<ImportDeclView>,
    pub parameters: Seq<NamedSpanView>,
    pub bare_expressions: Seq<NamedSpanView>,
}

impl View for SemanticModel {
    type V = ModelView;

    open spec fn view(&self) -> ModelView {
        ModelView {
            source: self.source@,
            kind: self.kind,
            ports: views_of(self.ports@),
            instances: views_of(self.instances@),
            assignments: views_of(self.assignments@),
            constraints: views_of(self.constraints@),
            implementations: views_of(self.implementations@),
            interfaces: views_of(self.interfaces@),
            catalog_records: views_of(self.catalog_records@),
            choices: views_of(self.choices@),
            imports: views_of(self.imports@),
            parameters: views_of(self.parameters@),
            bare_expressions: views_of(self.bare_expressions@),
        }
    }
}

/// A model of a document with nothing declared yet.
pub open spec fn empty_model(source: Seq<char>, kind: DocumentKind) -> ModelView {
    ModelView {
        source,
        kind,
        ports: Seq::empty(),
        instances: Seq::empty(),
        assignments: Seq::empty(),
        constraints: Seq::empty(),
        implementations: Seq::empty(),
        interfaces: Seq::empty(),
        catalog_records: Seq::empty(),
        choices: Seq::empty(),
        imports: Seq::empty(),
        parameters: Seq::empty(),
        bare_expressions: Seq::empty(),
    }
}

impl SemanticModel {
    fn new(source: SourceId, kind: DocumentKind) -> (r: SemanticModel)
        ensures
            r@ == empty_model(source@, kind),
    {
        let r = SemanticModel {
            source,
            kind,
            ports: Vec::new(),
            instances: Vec::new(),
            assignments: Vec::new(),
            constraints: Vec::new(),
            implementations: Vec::new(),
            interfaces: Vec::new(),
            catalog_records: Vec::new(),
            choices: Vec::new(),
            imports: Vec::new(),
            parameters: Vec::new(),
            bare_expressions: Vec::new(),
        };
        assert(r@ =~= empty_model(source@, kind));
        r
    }
}

fn span(source: &SourceId, range: TextRange) -> (r: TextSpan)
    ensures
        r@ == (SpanView { source: source@, range }),
{
    TextSpan::new(source.duplicate(), range)
}

pub proof fn lemma_views_index<T: View>(s: Seq<T>, i: int)
    requires
        0 <= i < s.len(),
    ensures
        views_of(s).len() == s.len(),
        views_of(s)[i] == s[i]@,
{
}

pub proof fn lemma_views_push<T: View>(s: Seq<T>, x: T)
    ensures
        views_of(s.push(x)) == views_of(s).push(x@),
{
    assert(views_of(s.push(x)) =~= views_of(s).push(x@));
}

pub proof fn lemma_diagnostics_push(s: Seq<Diagnostic>, x: Diagnostic)
    ensures
        diagnostics_view(s.push(x)) == diagnostics_view(s).push(x@),
{
    assert(diagnostics_view(s.push(x)) =~= diagnostics_view(s).push(x@));
}

// ---------------------------------------------------------------------------
// Lowering, as specifications
// ---------------------------------------------------------------------------

/// The error reported for a declaration that does not parse.
pub open spec fn malformed(code: Seq<char>, message: Seq<char>, sp: SpanView) -> DiagnosticView {
    error_view(code, message).with_span(sp)
}

pub open spec fn lower_port_spec(
    text: Seq<char>,
    direction: PortDirection,
    sp: SpanView,
    m: ModelView,
    ds: Seq<DiagnosticView>,
) -> (ModelView, Seq<DiagnosticView>) {
    match port_decl_spec(text, direction) {
        Some((name, poset)) => (
            ModelView {
                ports: m.ports.push(PortDeclView { name, direction, poset, span: sp }),
                ..m
            },
            ds,
        ),
        None => (
            m,
            ds.push(
                malformed(
                    "compiler.malformed-port"@,
                    "expected a port declaration like `provides name [poset]` or `requires name [poset]`"@,
                    sp,
                ),
            ),
        ),
    }
}

pub open spec fn lower_instance_spec(text: Seq<char>, sp: SpanView, m: ModelView, ds: Seq<DiagnosticView>) -> (
    ModelView,
    Seq<DiagnosticView>,
) {
    match instance_decl_spec(text) {
        Some((name, model)) => (
            ModelView { instances: m.instances.push(InstanceDeclView { name, model, span: sp }), ..m },
            ds,
        ),
        None => (
            m,
            ds.push(
                malformed(
                    "compiler.malformed-instance"@,
                    "expected an instance declaration like `local = instance `model`"@,
                    sp,
                ),
            ),
        ),
    }
}

pub open spec fn lower_assignment_spec(
    text: Seq<char>,
    sp: SpanView,
    m: ModelView,
    ds: Seq<DiagnosticView>,
) -> (ModelView, Seq<DiagnosticView>) {
    match assignment_spec(text) {
        Some((target, expression)) => (
            ModelView {
                assignments: m.assignments.push(
                    AssignmentDeclView {
                        target,
                        expression,
                        expression_ast: parse_expression_spec(expression),
                        span: sp,
                    },
                ),
                ..m
            },
            ds,
        ),
        None => (
            m,
            ds.push(
                malformed(
                    "compiler.malformed-assignment"@,
                    "expected an assignment with non-empty left and right sides"@,
                    sp,
                ),
            ),
        ),
    }
}

/// The constraint declared by a text, when it holds a relation.
pub open spec fn constraint_decl_spec(text: Seq<char>, sp: SpanView) -> Option<ConstraintDeclView> {
    match relation_spec(text) {
        Some((left, relation, right)) => Some(
            ConstraintDeclView {
                left,
                left_expr: parse_expression_spec(left),
                relation,
                right,
                right_expr: parse_expression_spec(right),
                span: sp,
            },
        ),
        None => None,
    }
}

pub open spec fn lower_constraint_spec(
    text: Seq<char>,
    sp: SpanView,
    m: ModelView,
    ds: Seq<DiagnosticView>,
) -> (ModelView, Seq<DiagnosticView>) {
    match constraint_decl_spec(text, sp) {
        Some(c) => (ModelView { constraints: m.constraints.push(c), ..m }, ds),
        None => (
            m,
            ds.push(
                malformed(
                    "compiler.malformed-constraint"@,
                    "expected a constraint with a supported relation operator"@,
                    sp,
                ),
            ),
        ),
    }
}

pub open spec fn lower_implementation_spec(
    text: Seq<char>,
    sp: SpanView,
    m: ModelView,
    ds: Seq<DiagnosticView>,
) -> (ModelView, Seq<DiagnosticView>) {
    match implementation_spec(text) {
        Some((backend, resource, raw)) => (
            ModelView {
                implementations: m.implementations.push(
                    ImplementationDeclView { backend, resource, raw, span: sp },
                ),
                ..m
            },
            ds,
        ),
        None => (
            m,
            ds.push(
                malformed(
                    "compiler.malformed-implementation"@,
                    "expected `implemented-by <backend> resource(\"path\")`"@,
                    sp,
                ),
            ),
        ),
    }
}

pub open spec fn lower_interface_impl_spec(
    text: Seq<char>,
    sp: SpanView,
    m: ModelView,
    ds: Seq<DiagnosticView>,
) -> (ModelView, Seq<DiagnosticView>) {
    match interface_impl_spec(text) {
        Some(name) => (
            ModelView {
                interfaces: m.interfaces.push(
                    NamedSpanView { name, target: Seq::empty(), span: sp },
                ),
                ..m
            },
            ds,
        ),
        None => (
            m,
            ds.push(
                malformed(
                    "compiler.malformed-interface-implementation"@,
                    "expected `implements `interface_name`"@,
                    sp,
                ),
            ),
        ),
    }
}

pub open spec fn lower_catalog_record_spec(
    text: Seq<char>,
    sp: SpanView,
    m: ModelView,
    ds: Seq<DiagnosticView>,
) -> (ModelView, Seq<DiagnosticView>) {
    match catalog_record_spec(text) {
        Some((provides, implementation, required)) => (
            ModelView {
                catalog_records: m.catalog_records.push(
                    CatalogRecordDeclView {
                        provides,
                        provided_values: expression_list_spec(provides),
                        implementation,
                        required,
                        required_values: expression_list_spec(required),
                        span: sp,
                    },
                ),
                ..m
            },
            ds,
        ),
        None => (
            m,
            ds.push(
                malformed(
                    "compiler.malformed-catalog-record"@,
                    "expected an inline catalog row with implementation arrows"@,
                    sp,
                ),
            ),
        ),
    }
}

pub open spec fn lower_import_spec(text: Seq<char>, sp: SpanView, m: ModelView, ds: Seq<DiagnosticView>) -> (
    ModelView,
    Seq<DiagnosticView>,
) {
    match import_decl_spec(text) {
        Some(models) => (
            ModelView {
                imports: m.imports.push(ImportDeclView { raw: text, models, span: sp }),
                ..m
            },
            ds,
        ),
        None => (
            m,
            ds.push(
                malformed(
                    "compiler.malformed-import"@,
                    "expected an import declaration containing `import model ...`"@,
                    sp,
                ),
            ),
        ),
    }
}

/// Lowering one statement: each kind goes to its declaration list, or, when
/// its text does not parse, to an error at the statement's span.
pub open spec fn lower_statement_spec(
    source: Seq<char>,
    st: StatementView,
    m: ModelView,
    ds: Seq<DiagnosticView>,
) -> (ModelView, Seq<DiagnosticView>) {
    let sp = SpanView { source, range: st.range };
    match st.kind {
        StatementKind::Provides => lower_port_spec(st.text, PortDirection::Provides, sp, m, ds),
        StatementKind::Requires => lower_port_spec(st.text, PortDirection::Requires, sp, m, ds),
        StatementKind::Instance => lower_instance_spec(st.text, sp, m, ds),
        StatementKind::Assignment => lower_assignment_spec(st.text, sp, m, ds),
        StatementKind::Constraint => lower_constraint_spec(st.text, sp, m, ds),
        StatementKind::ImplementedBy => lower_implementation_spec(st.text, sp, m, ds),
        StatementKind::Implements => lower_interface_impl_spec(st.text, sp, m, ds),
        StatementKind::CatalogRecord => lower_catalog_record_spec(st.text, sp, m, ds),
        StatementKind::Import => lower_import_spec(st.text, sp, m, ds),
        StatementKind::BareExpression => (
            ModelView {
                bare_expressions: m.bare_expressions.push(
                    NamedSpanView { name: st.text, target: Seq::empty(), span: sp },
                ),
                ..m
            },
            ds,
        ),
    }
}

/// Lowering statements in order.
pub open spec fn lower_statements_spec(
    source: Seq<char>,
    sts: Seq<StatementView>,
    m: ModelView,
    ds: Seq<DiagnosticView>,
) -> (ModelView, Seq<DiagnosticView>)
    decreases sts.len(),
{
    if sts.len() == 0 {
        (m, ds)
    } else {
        let (m1, d1) = lower_statements_spec(source, sts.drop_last(), m, ds);
        lower_statement_spec(source, sts.last(), m1, d1)
    }
}

/// Lowering the entries of a `choose (...)` or `intersection (...)` document.
pub open spec fn lower_choices_spec(
    source: Seq<char>,
    es: Seq<EntryView>,
    m: ModelView,
    ds: Seq<DiagnosticView>,
) -> (ModelView, Seq<DiagnosticView>)
    decreases es.len(),
{
    if es.len() == 0 {
        (m, ds)
    } else {
        let (m1, d1) = lower_choices_spec(source, es.drop_last(), m, ds);
        let e = es.last();
        let sp = SpanView { source, range: e.range };
        match choice_decl_spec(e.text) {
            Some((name, target)) => (
                ModelView { choices: m1.choices.push(NamedSpanView { name, target, span: sp }), ..m1 },
                d1,
            ),
            None => (
                m1,
                d1.push(
                    malformed(
                        "compiler.malformed-choice"@,
                        "expected a choice entry like `Name: `Model`"@,
                        sp,
                    ),
                ),
            ),
        }
    }
}

/// Template or specialization parameters, kept as text.
pub open spec fn parameters_spec(source: Seq<char>, es: Seq<EntryView>) -> Seq<NamedSpanView> {
    es.map_values(
        |e: EntryView| NamedSpanView { name: e.text, target: Seq::empty(), span: SpanView { source, range: e.range } },
    )
}

// ---------------------------------------------------------------------------
// Lowering
// ---------------------------------------------------------------------------

fn statement_span(source: &SourceId, statement: &Statement) -> (r: TextSpan)
    ensures
        r@ == (SpanView { source: source@, range: statement.range }),
{
    span(source, statement.range)
}

fn lower_port(
    source: &SourceId,
    statement: &Statement,
    direction: PortDirection,
    model: &mut SemanticModel,
    diagnostics: &mut Vec<Diagnostic>,
)
    ensures
        (final(model)@, diagnostics_view(final(diagnostics)@)) == lower_port_spec(
            statement.text@,
            direction,
            SpanView { source: source@, range: statement.range },
            old(model)@,
            diagnostics_view(old(diagnostics)@),
        ),
{
    let text = chars_of(statement.text.as_str());
    match parse_port_decl(text.as_slice(), direction) {
        Some((name, poset)) => {
            let decl = PortDecl { name, direction, poset, span: statement_span(source, statement) };
            proof {
                lemma_views_push(model.ports@, decl);
            }
            model.ports.push(decl);
        },
        None => {
            let d = Diagnostic::error(
                "compiler.malformed-port",
                "expected a port declaration like `provides name [poset]` or `requires name [poset]`",
            ).with_span(statement_span(source, statement));
            proof {
                lemma_diagnostics_push(diagnostics@, d);
            }
            diagnostics.push(d);
        },
    }
}

fn lower_instance(
    source: &SourceId,
    statement: &Statement,
    model: &mut SemanticModel,
    diagnostics: &mut Vec<Diagnostic>,
)
    ensures
        (final(model)@, diagnostics_view(final(diagnostics)@)) == lower_instance_spec(
            statement.text@,
            SpanView { source: source@, range: statement.range },
            old(model)@,
            diagnostics_view(old(diagnostics)@),
        ),
{
    let text = chars_of(statement.text.as_str());
    match parse_instance_decl(text.as_slice()) {
        Some((name, referenced_model)) => {
            let decl = InstanceDecl {
                name,
                model: referenced_model,
                span: statement_span(source, statement),
            };
            proof {
                lemma_views_push(model.instances@, decl);
            }
            model.instances.push(decl);
        },
        None => {
            let d = Diagnostic::error(
                "compiler.malformed-instance",
                "expected an instance declaration like `local = instance `model`",
            ).with_span(statement_span(source, statement));
            proof {
                lemma_diagnostics_push(diagnostics@, d);
            }
            diagnostics.push(d);
        },
    }
}

fn lower_assignment(
    source: &SourceId,
    statement: &Statement,
    model: &mut SemanticModel,
    diagnostics: &mut Vec<Diagnostic>,
)
    ensures
        (final(model)@, diagnostics_view(final(diagnostics)@)) == lower_assignment_spec(
            statement.text@,
            SpanView { source: source@, range: statement.range },
            old(model)@,
            diagnostics_view(old(diagnostics)@),
        ),
{
    let text = chars_of(statement.text.as_str());
    match split_assignment(text.as_slice()) {
        Some((target, expression)) => {
            let decl = AssignmentDecl {
                target,
                expression_ast: parse_expression_text(expression.as_str()),
                expression,
                span: statement_span(source, statement),
            };
            proof {
                lemma_views_push(model.assignments@, decl);
            }
            model.assignments.push(decl);
        },
        None => {
            let d = Diagnostic::error(
                "compiler.malformed-assignment",
                "expected an assignment with non-empty left and right sides",
            ).with_span(statement_span(source, statement));
            proof {
                lemma_diagnostics_push(diagnostics@, d);
            }
            diagnostics.push(d);
        },
    }
}

fn constraint_decl_from_text(source: &SourceId, statement: &Statement, text: &str) -> (r: Option<
    ConstraintDecl,
>)
    ensures
        match r {
            Some(c) => constraint_decl_spec(
                text@,
                SpanView { source: source@, range: statement.range },
            ) == Some(c@),
            None => constraint_decl_spec(
                text@,
                SpanView { source: source@, range: statement.range },
            ) is None,
        },
{
    let chars = chars_of(text);
    match split_relation(chars.as_slice()) {
        Some((left, relation, right)) => Some(
            ConstraintDecl {
                left_expr: parse_expression_text(left.as_str()),
                left,
                relation,
                right_expr: parse_expression_text(right.as_str()),
                right,
                span: statement_span(source, statement),
            },
        ),
        None => None,
    }
}

fn lower_constraint(
    source: &SourceId,
    statement: &Statement,
    model: &mut SemanticModel,
    diagnostics: &mut Vec<Diagnostic>,
)
    ensures
        (final(model)@, diagnostics_view(final(diagnostics)@)) == lower_constraint_spec(
            statement.text@,
            SpanView { source: source@, range: statement.range },
            old(model)@,
            diagnostics_view(old(diagnostics)@),
        ),
{
    match constraint_decl_from_text(source, statement, statement.text.as_str()) {
        Some(constraint) => {
            proof {
                lemma_views_push(model.constraints@, constraint);
            }
            model.constraints.push(constraint);
        },
        None => {
            let d = Diagnostic::error(
                "compiler.malformed-constraint",
                "expected a constraint with a supported relation operator",
            ).with_span(statement_span(source, statement));
            proof {
                lemma_diagnostics_push(diagnostics@, d);
            }
            diagnostics.push(d);
        },
    }
}

fn lower_implementation(
    source: &SourceId,
    statement: &Statement,
    model: &mut SemanticModel,
    diagnostics: &mut Vec<Diagnostic>,
)
    ensures
        (final(model)@, diagnostics_view(final(diagnostics)@)) == lower_implementation_spec(
            statement.text@,
            SpanView { source: source@, range: statement.range },
            old(model)@,
            diagnostics_view(old(diagnostics)@),
        ),
{
    let text = chars_of(statement.text.as_str());
    match parse_implementation_decl(text.as_slice()) {
        Some(implementation) => {
            let decl = ImplementationDecl {
                backend: implementation.backend,
                resource: implementation.resource,
                raw: implementation.raw,
                span: statement_span(source, statement),
            };
            proof {
                lemma_views_push(model.implementations@, decl);
            }
            model.implementations.push(decl);
        },
        None => {
            let d = Diagnostic::error(
                "compiler.malformed-implementation",
                "expected `implemented-by <backend> resource(\"path\")`",
            ).with_span(statement_span(source, statement));
            proof {
                lemma_diagnostics_push(diagnostics@, d);
            }
            diagnostics.push(d);
        },
    }
}

fn lower_interface_impl(
    source: &SourceId,
    statement: &Statement,
    model: &mut SemanticModel,
    diagnostics: &mut Vec<Diagnostic>,
)
    ensures
        (final(model)@, diagnostics_view(final(diagnostics)@)) == lower_interface_impl_spec(
            statement.text@,
            SpanView { source: source@, range: statement.range },
            old(model)@,
            diagnostics_view(old(diagnostics)@),
        ),
{
    let text = chars_of(statement.text.as_str());
    match parse_interface_impl_decl(text.as_slice()) {
        Some(name) => {
            let decl = InterfaceImplDecl { name, span: statement_span(source, statement) };
            proof {
                lemma_views_push(model.interfaces@, decl);
            }
            model.interfaces.push(decl);
        },
        None => {
            let d = Diagnostic::error(
                "compiler.malformed-interface-implementation",
                "expected `implements `interface_name`",
            ).with_span(statement_span(source, statement));
            proof {
                lemma_diagnostics_push(diagnostics@, d);
            }
            diagnostics.push(d);
        },
    }
}

fn lower_catalog_record(
    source: &SourceId,
    statement: &Statement,
    model: &mut SemanticModel,
    diagnostics: &mut Vec<Diagnostic>,
)
    ensures
        (final(model)@, diagnostics_view(final(diagnostics)@)) == lower_catalog_record_spec(
            statement.text@,
            SpanView { source: source@, range: statement.range },
            old(model)@,
            diagnostics_view(old(diagnostics)@),
        ),
{
    let text = chars_of(statement.text.as_str());
    match parse_catalog_record(text.as_slice()) {
        Some((provides, implementation, required)) => {
            let decl = CatalogRecordDecl {
                provided_values: parse_expression_list_text(provides.as_str()),
                provides,
                implementation,
                required_values: parse_expression_list_text(required.as_str()),
                required,
                span: statement_span(source, statement),
            };
            proof {
                lemma_views_push(model.catalog_records@, decl);
            }
            model.catalog_records.push(decl);
        },
        None => {
            let d = Diagnostic::error(
                "compiler.malformed-catalog-record",
                "expected an inline catalog row with implementation arrows",
            ).with_span(statement_span(source, statement));
            proof {
                lemma_diagnostics_push(diagnostics@, d);
            }
            diagnostics.push(d);
        },
    }
}

fn lower_import(
    source: &SourceId,
    statement: &Statement,
    model: &mut SemanticModel,
    diagnostics: &mut Vec<Diagnostic>,
)
    ensures
        (final(model)@, diagnostics_view(final(diagnostics)@)) == lower_import_spec(
            statement.text@,
            SpanView { source: source@, range: statement.range },
            old(model)@,
            diagnostics_view(old(diagnostics)@),
        ),
{
    let text = chars_of(statement.text.as_str());
    match parse_import_decl(text.as_slice()) {
        Some(models) => {
            let decl = ImportDecl {
                raw: statement.text.clone(),
                models,
                span: statement_span(source, statement),
            };
            proof {
                lemma_views_push(model.imports@, decl);
            }
            model.imports.push(decl);
        },
        None => {
            let d = Diagnostic::error(
                "compiler.malformed-import",
                "expected an import declaration containing `import model ...`",
            ).with_span(statement_span(source, statement));
            proof {
                lemma_diagnostics_push(diagnostics@, d);
            }
            diagnostics.push(d);
        },
    }
}

fn lower_statements(
    source: &SourceId,
    statements: &[Statement],
    model: &mut SemanticModel,
    diagnostics: &mut Vec<Diagnostic>,
)
    ensures
        (final(model)@, diagnostics_view(final(diagnostics)@)) == lower_statements_spec(
            source@,
            statements_view(statements@),
            old(model)@,
            diagnostics_view(old(diagnostics)@),
        ),
{
    let ghost sv = statements_view(statements@);
    let ghost m0 = model@;
    let ghost d0 = diagnostics_view(diagnostics@);
    let mut i: usize = 0;
    while i < statements.len()
        invariant
            i <= statements@.len(),
            sv == statements_view(statements@),
            (model@, diagnostics_view(diagnostics@)) == lower_statements_spec(
                source@,
                sv.take(i as int),
                m0,
                d0,
            ),
        decreases statements@.len() - i,
    {
        let statement = &statements[i];
        proof {
            assert(sv.take(i + 1).drop_last() =~= sv.take(i as int));
            assert(sv.take(i + 1).last() == statement@);
        }
        match statement.kind {
            StatementKind::Provides => {
                lower_port(source, statement, PortDirection::Provides, model, diagnostics);
            },
            StatementKind::Requires => {
                lower_port(source, statement, PortDirection::Requires, model, diagnostics);
            },
            StatementKind::Instance => lower_instance(source, statement, model, diagnostics),
            StatementKind::Assignment => lower_assignment(source, statement, model, diagnostics),
            StatementKind::Constraint => lower_constraint(source, statement, model, diagnostics),
            StatementKind::ImplementedBy => {
                lower_implementation(source, statement, model, diagnostics);
            },
            StatementKind::Implements => {
                lower_interface_impl(source, statement, model, diagnostics);
            },
            StatementKind::CatalogRecord => {
                lower_catalog_record(source, statement, model, diagnostics);
            },
            StatementKind::Import => lower_import(source, statement, model, diagnostics),
            StatementKind::BareExpression => {
                let decl = BareExpressionDecl {
                    text: statement.text.clone(),
                    span: statement_span(source, statement),
                };
                proof {
                    lemma_views_push(model.bare_expressions@, decl);
                }
                model.bare_expressions.push(decl);
            },
        }
        i = i + 1;
    }
    proof {
        assert(sv.take(statements@.len() as int) =~= sv);
    }
}

fn lower_choices(
    source: &SourceId,
    entries: &[SyntaxEntry],
    model: &mut SemanticModel,
    diagnostics: &mut Vec<Diagnostic>,
)
    ensures
        (final(model)@, diagnostics_view(final(diagnostics)@)) == lower_choices_spec(
            source@,
            entries_view(entries@),
            old(model)@,
            diagnostics_view(old(diagnostics)@),
        ),
{
    let ghost ev = entries_view(entries@);
    let ghost m0 = model@;
    let ghost d0 = diagnostics_view(diagnostics@);
    let mut i: usize = 0;
    while i < entries.len()
        invariant
            i <= entries@.len(),
            ev == entries_view(entries@),
            (model@, diagnostics_view(diagnostics@)) == lower_choices_spec(
                source@,
                ev.take(i as int),
                m0,
                d0,
            ),
        decreases entries@.len() - i,
    {
        let entry = &entries[i];
        proof {
            assert(ev.take(i + 1).drop_last() =~= ev.take(i as int));
            assert(ev.take(i + 1).last() == entry@);
        }
        let text = chars_of(entry.text.as_str());
        match parse_choice_decl(text.as_slice()) {
            Some((name, target)) => {
                let decl = ChoiceDecl { name, target, span: span(source, entry.range) };
                proof {
                    lemma_views_push(model.choices@, decl);
                }
                model.choices.push(decl);
            },
            None => {
                let d = Diagnostic::error(
                    "compiler.malformed-choice",
                    "expected a choice entry like `Name: `Model`",
                ).with_span(span(source, entry.range));
                proof {
                    lemma_diagnostics_push(diagnostics@, d);
                }
                diagnostics.push(d);
            },
        }
        i = i + 1;
    }
    proof {
        assert(ev.take(entries@.len() as int) =~= ev);
    }
}

fn lower_parameters(source: &SourceId, entries: &[SyntaxEntry], model: &mut SemanticModel)
    ensures
        final(model)@ == (ModelView {
            parameters: old(model)@.parameters + parameters_spec(source@, entries_view(entries@)),
            ..old(model)@
        }),
{
    let ghost ev = entries_view(entries@);
    let ghost m0 = model@;
    let mut i: usize = 0;
    while i < entries.len()
        invariant
            i <= entries@.len(),
            ev == entries_view(entries@),
            model@ == (ModelView {
                parameters: m0.parameters + parameters_spec(source@, ev.take(i as int)),
                ..m0
            }),
        decreases entries@.len() - i,
    {
        let entry = &entries[i];
        let decl = ParameterDecl { text: entry.text.clone(), span: span(source, entry.range) };
        proof {
            lemma_views_push(model.parameters@, decl);
            assert(ev.take(i + 1) =~= ev.take(i as int).push(entry@));
            assert(m0.parameters + parameters_spec(source@, ev.take(i + 1)) =~= (m0.parameters
                + parameters_spec(source@, ev.take(i as int))).push(decl@));
        }
        model.parameters.push(decl);
        i = i + 1;
    }
    proof {
        assert(ev.take(entries@.len() as int) =~= ev);
    }
}

// ---------------------------------------------------------------------------
// Duplicate declarations
// ---------------------------------------------------------------------------

/// How a port's direction is named in the duplicate-name message.
pub open spec fn port_role(d: PortDirection) -> Seq<char> {
    match d {
        PortDirection::Provides => "provided port"@,
        PortDirection::Requires => "required port"@,
    }
}

/// The last port among the first `j` with the direction and name of port `i`.
pub open spec fn previous_port(ports: Seq<PortDeclView>, i: int, j: int) -> Option<int>
    decreases j,
{
    if j <= 0 {
        None
    } else if ports[j - 1].direction == ports[i].direction && ports[j - 1].name == ports[i].name {
        Some(j - 1)
    } else {
        previous_port(ports, i, j - 1)
    }
}

/// A port declared again with the same direction and name: the error points
/// at the previous declaration.
pub open spec fn duplicate_port_diag(ports: Seq<PortDeclView>, i: int) -> Option<DiagnosticView> {
    match previous_port(ports, i, i) {
        Some(j) => Some(
            error_view(
                "compiler.duplicate-port"@,
                "duplicate "@ + port_keyword(ports[i].direction) + " port `"@ + ports[i].name + "`"@,
            ).with_span(ports[j].span).with_help("Use unique port names within each direction."@),
        ),
        None => None,
    }
}

/// The last instance among the first `j` with the name of instance `i`.
pub open spec fn previous_instance(insts: Seq<InstanceDeclView>, i: int, j: int) -> Option<int>
    decreases j,
{
    if j <= 0 {
        None
    } else if insts[j - 1].name == insts[i].name {
        Some(j - 1)
    } else {
        previous_instance(insts, i, j - 1)
    }
}

/// An instance declared again with the same name: the error points at the
/// previous declaration.
pub open spec fn duplicate_instance_diag(insts: Seq<InstanceDeclView>, i: int) -> Option<DiagnosticView> {
    match previous_instance(insts, i, i) {
        Some(j) => Some(
            error_view(
                "compiler.duplicate-instance"@,
                "duplicate instance `"@ + insts[i].name + "`"@,
            ).with_span(insts[j].span).with_help("Use unique local instance names."@),
        ),
        None => None,
    }
}

/// Declared names in order (ports, then instances), with their role and span.
pub open spec fn named_entries(m: ModelView) -> Seq<(Seq<char>, Seq<char>, SpanView)> {
    m.ports.map_values(|p: PortDeclView| (p.name, port_role(p.direction), p.span))
        + m.instances.map_values(|x: InstanceDeclView| (x.name, "instance"@, x.span))
}

/// The first of the first `k` entries with the given name.
pub open spec fn first_named(es: Seq<(Seq<char>, Seq<char>, SpanView)>, name: Seq<char>, k: int) -> Option<int>
    decreases k,
{
    if k <= 0 {
        None
    } else {
        match first_named(es, name, k - 1) {
            Some(j) => Some(j),
            None => if es[k - 1].0 == name {
                Some(k - 1)
            } else {
                None
            },
        }
    }
}

/// A name first declared in another role: the error points at the later
/// declaration.
pub open spec fn name_diag(es: Seq<(Seq<char>, Seq<char>, SpanView)>, i: int) -> Option<DiagnosticView> {
    match first_named(es, es[i].0, i) {
        Some(j) => if es[j].1 != es[i].1 {
            Some(
                error_view(
                    "compiler.duplicate-name"@,
                    "name `"@ + es[i].0 + "` is already used as a "@ + es[j].1,
                ).with_span(es[i].2).with_help(
                    "Use distinct names for provided ports, required ports, and local instances."@,
                ),
            )
        } else {
            None
        },
        None => None,
    }
}

pub open spec fn opt_diag(o: Option<DiagnosticView>) -> Seq<DiagnosticView> {
    match o {
        Some(d) => seq![d],
        None => Seq::empty(),
    }
}

pub open spec fn port_duplicates(ports: Seq<PortDeclView>, k: int) -> Seq<DiagnosticView>
    decreases k,
{
    if k <= 0 {
        Seq::empty()
    } else {
        port_duplicates(ports, k - 1) + opt_diag(duplicate_port_diag(ports, k - 1))
    }
}

pub open spec fn port_name_diags(es: Seq<(Seq<char>, Seq<char>, SpanView)>, k: int) -> Seq<DiagnosticView>
    decreases k,
{
    if k <= 0 {
        Seq::empty()
    } else {
        port_name_diags(es, k - 1) + opt_diag(name_diag(es, k - 1))
    }
}

pub open spec fn instance_diags(m: ModelView, k: int) -> Seq<DiagnosticView>
    decreases k,
{
    if k <= 0 {
        Seq::empty()
    } else {
        instance_diags(m, k - 1) + opt_diag(duplicate_instance_diag(m.instances, k - 1)) + opt_diag(
            name_diag(named_entries(m), m.ports.len() + k - 1),
        )
    }
}

/// The duplicate-declaration errors of a model: repeated ports, then names of
/// ports used in another role, then for each instance a repeated instance
/// name and a name used in another role.
pub open spec fn duplicate_diagnostics(m: ModelView) -> Seq<DiagnosticView> {
    port_duplicates(m.ports, m.ports.len() as int) + port_name_diags(
        named_entries(m),
        m.ports.len() as int,
    ) + instance_diags(m, m.instances.len() as int)
}

pub proof fn lemma_named_entries(m: ModelView, k: int)
    requires
        0 <= k < m.ports.len() + m.instances.len(),
    ensures
        named_entries(m).len() == m.ports.len() + m.instances.len(),
        k < m.ports.len() ==> named_entries(m)[k] == (
            m.ports[k].name,
            port_role(m.ports[k].direction),
            m.ports[k].span,
        ),
        k >= m.ports.len() ==> named_entries(m)[k] == (
            m.instances[k - m.ports.len()].name,
            "instance"@,
            m.instances[k - m.ports.len()].span,
        ),
{
}

fn port_role_text(d: PortDirection) -> (r: &'static str)
    ensures
        r@ == port_role(d),
{
    match d {
        PortDirection::Provides => "provided port",
        PortDirection::Requires => "required port",
    }
}

/// The index among all named entries of port `k`, or of instance `k`.
pub open spec fn entry_index(m: ModelView, in_instances: bool, k: int) -> int {
    if in_instances {
        m.ports.len() + k
    } else {
        k
    }
}

pub open spec fn entry_valid(m: ModelView, in_instances: bool, k: int) -> bool {
    0 <= k && if in_instances {
        k < m.instances.len()
    } else {
        k < m.ports.len()
    }
}

fn entry_name(model: &SemanticModel, in_instances: bool, k: usize) -> (r: &String)
    requires
        entry_valid(model@, in_instances, k as int),
    ensures
        r@ == named_entries(model@)[entry_index(model@, in_instances, k as int)].0,
{
    proof {
        lemma_named_entries(model@, entry_index(model@, in_instances, k as int));
    }
    if in_instances {
        &model.instances[k].name
    } else {
        &model.ports[k].name
    }
}

fn entry_role(model: &SemanticModel, in_instances: bool, k: usize) -> (r: &'static str)
    requires
        entry_valid(model@, in_instances, k as int),
    ensures
        r@ == named_entries(model@)[entry_index(model@, in_instances, k as int)].1,
{
    proof {
        lemma_named_entries(model@, entry_index(model@, in_instances, k as int));
    }
    if in_instances {
        "instance"
    } else {
        port_role_text(model.ports[k].direction)
    }
}

fn entry_span(model: &SemanticModel, in_instances: bool, k: usize) -> (r: TextSpan)
    requires
        entry_valid(model@, in_instances, k as int),
    ensures
        r@ == named_entries(model@)[entry_index(model@, in_instances, k as int)].2,
{
    proof {
        lemma_named_entries(model@, entry_index(model@, in_instances, k as int));
    }
    if in_instances {
        model.instances[k].span.duplicate()
    } else {
        model.ports[k].span.duplicate()
    }
}

/// The duplicate-name error for a port or an instance, if any.
fn name_check(model: &SemanticModel, in_instances: bool, i: usize, diagnostics: &mut Vec<Diagnostic>)
    requires
        entry_valid(model@, in_instances, i as int),
    ensures
        diagnostics_view(final(diagnostics)@) == diagnostics_view(old(diagnostics)@) + opt_diag(
            name_diag(named_entries(model@), entry_index(model@, in_instances, i as int)),
        ),
{
    let ghost es = named_entries(model@);
    let ghost gi = entry_index(model@, in_instances, i as int);
    let ghost np = model@.ports.len() as int;
    proof {
        lemma_named_entries(model@, gi);
    }
    let name = entry_name(model, in_instances, i);
    // entries before `i`: ports first, then instances
    let port_end = if in_instances { model.ports.len() } else { i };
    let mut first: Option<(bool, usize)> = None;
    let mut k: usize = 0;
    while k < port_end
        invariant
            k <= port_end <= model@.ports.len(),
            port_end == (if in_instances { np } else { i as int }),
            entry_valid(model@, in_instances, i as int),
            gi == entry_index(model@, in_instances, i as int),
            np == model@.ports.len(),
            es == named_entries(model@),
            name@ == es[gi].0,
            match first {
                Some((b, j)) => !b && first_named(es, name@, k as int) == Some(j as int) && j < k,
                None => first_named(es, name@, k as int) is None,
            },
        decreases port_end - k,
    {
        if first.is_none() && str_eq(entry_name(model, false, k).as_str(), name.as_str()) {
            first = Some((false, k));
        }
        k = k + 1;
    }
    let inst_end = if in_instances { i } else { 0 };
    let mut k: usize = 0;
    while k < inst_end
        invariant
            k <= inst_end,
            inst_end == (if in_instances { i as int } else { 0 }),
            port_end == (if in_instances { np } else { i as int }),
            entry_valid(model@, in_instances, i as int),
            gi == entry_index(model@, in_instances, i as int),
            np == model@.ports.len(),
            es == named_entries(model@),
            name@ == es[gi].0,
            match first {
                Some((b, j)) => first_named(es, name@, port_end + k) == Some(
                    entry_index(model@, b, j as int),
                ) && entry_valid(model@, b, j as int),
                None => first_named(es, name@, port_end + k) is None,
            },
        decreases inst_end - k,
    {
        proof {
            lemma_named_entries(model@, np + k);
        }
        if first.is_none() && str_eq(entry_name(model, true, k).as_str(), name.as_str()) {
            first = Some((true, k));
        }
        k = k + 1;
    }
    assert(match first {
        Some((b, j)) => first_named(es, name@, gi) == Some(entry_index(model@, b, j as int))
            && entry_valid(model@, b, j as int),
        None => first_named(es, name@, gi) is None,
    });
    match first {
        Some((b, j)) => {
            let first_role = entry_role(model, b, j);
            let role = entry_role(model, in_instances, i);
            if !str_eq(first_role, role) {
                proof {
                    reveal_strlit("");
                }
                let name_chars = chars_of(name.as_str());
                let role_chars = chars_of(first_role);
                let message = join5(
                    "name `",
                    name_chars.as_slice(),
                    "` is already used as a ",
                    role_chars.as_slice(),
                    "",
                );
                assert(message@ =~= "name `"@ + es[gi].0 + "` is already used as a "@
                    + es[entry_index(model@, b, j as int)].1);
                let d = Diagnostic::error_with_message("compiler.duplicate-name", message).with_span(
                    entry_span(model, in_instances, i),
                ).with_help(
                    "Use distinct names for provided ports, required ports, and local instances.",
                );
                proof {
                    lemma_diagnostics_push(diagnostics@, d);
                }
                diagnostics.push(d);
            } else {
                assert(diagnostics_view(diagnostics@) + opt_diag(name_diag(es, gi)) =~= diagnostics_view(diagnostics@));
            }
        },
        None => {
            assert(diagnostics_view(diagnostics@) + opt_diag(name_diag(es, gi)) =~= diagnostics_view(diagnostics@));
        },
    }
}

fn detect_duplicate_declarations(model: &SemanticModel, diagnostics: &mut Vec<Diagnostic>)
    ensures
        diagnostics_view(final(diagnostics)@) == diagnostics_view(old(diagnostics)@)
            + duplicate_diagnostics(model@),
{
    let ghost mv = model@;
    let ghost d0 = diagnostics_view(diagnostics@);
    let ghost pv = mv.ports;
    let mut i: usize = 0;
    while i < model.ports.len()
        invariant
            i <= mv.ports.len(),
            mv == model@,
            pv == mv.ports,
            diagnostics_view(diagnostics@) == d0 + port_duplicates(pv, i as int),
        decreases mv.ports.len() - i,
    {
        let port = &model.ports[i];
        assert(pv[i as int] == port@);
        let mut j = i;
        while j > 0 && !(model.ports[j - 1].direction == port.direction && str_eq(
            model.ports[j - 1].name.as_str(),
            port.name.as_str(),
        ))
            invariant
                j <= i < mv.ports.len(),
                mv == model@,
                pv == mv.ports,
                pv[i as int] == port@,
                previous_port(pv, i as int, i as int) == previous_port(pv, i as int, j as int),
            decreases j,
        {
            assert(pv[j - 1] == model.ports@[j - 1]@);
            j = j - 1;
        }
        if j > 0 {
            assert(pv[j - 1] == model.ports@[j - 1]@);
            let direction = match port.direction {
                PortDirection::Provides => "provides",
                PortDirection::Requires => "requires",
            };
            let direction_chars = chars_of(direction);
            let name_chars = chars_of(port.name.as_str());
            let message = join5(
                "duplicate ",
                direction_chars.as_slice(),
                " port `",
                name_chars.as_slice(),
                "`",
            );
            let d = Diagnostic::error_with_message("compiler.duplicate-port", message).with_span(
                model.ports[j - 1].span.duplicate(),
            ).with_help("Use unique port names within each direction.");
            proof {
                lemma_diagnostics_push(diagnostics@, d);
                assert(d0 + port_duplicates(pv, i + 1) =~= d0 + port_duplicates(pv, i as int)
                    + seq![d@]);
            }
            diagnostics.push(d);
        } else {
            assert(d0 + port_duplicates(pv, i + 1) =~= d0 + port_duplicates(pv, i as int));
        }
        i = i + 1;
    }
    let ghost d1 = diagnostics_view(diagnostics@);
    let ghost es = named_entries(mv);
    let mut i: usize = 0;
    while i < model.ports.len()
        invariant
            i <= mv.ports.len(),
            mv == model@,
            es == named_entries(mv),
            diagnostics_view(diagnostics@) == d1 + port_name_diags(es, i as int),
        decreases mv.ports.len() - i,
    {
        name_check(model, false, i, diagnostics);
        assert(d1 + port_name_diags(es, i + 1) =~= d1 + port_name_diags(es, i as int) + opt_diag(
            name_diag(es, i as int),
        ));
        i = i + 1;
    }
    let ghost d2 = diagnostics_view(diagnostics@);
    let ghost iv = mv.instances;
    let mut i: usize = 0;
    while i < model.instances.len()
        invariant
            i <= mv.instances.len(),
            mv == model@,
            es == named_entries(mv),
            iv == mv.instances,
            diagnostics_view(diagnostics@) == d2 + instance_diags(mv, i as int),
        decreases mv.instances.len() - i,
    {
        let instance = &model.instances[i];
        assert(iv[i as int] == instance@);
        let ghost before = diagnostics_view(diagnostics@);
        let mut j = i;
        while j > 0 && !str_eq(model.instances[j - 1].name.as_str(), instance.name.as_str())
            invariant
                j <= i < mv.instances.len(),
                mv == model@,
                iv == mv.instances,
                iv[i as int] == instance@,
                previous_instance(iv, i as int, i as int) == previous_instance(
                    iv,
                    i as int,
                    j as int,
                ),
            decreases j,
        {
            assert(iv[j - 1] == model.instances@[j - 1]@);
            j = j - 1;
        }
        if j > 0 {
            assert(iv[j - 1] == model.instances@[j - 1]@);
            let name_chars = chars_of(instance.name.as_str());
            let message = join3("duplicate instance `", name_chars.as_slice(), "`");
            let d = Diagnostic::error_with_message("compiler.duplicate-instance", message).with_span(
                model.instances[j - 1].span.duplicate(),
            ).with_help("Use unique local instance names.");
            proof {
                lemma_diagnostics_push(diagnostics@, d);
            }
            diagnostics.push(d);
        }
        let ghost mid = diagnostics_view(diagnostics@);
        assert(mid =~= before + opt_diag(duplicate_instance_diag(iv, i as int)));
        name_check(model, true, i, diagnostics);
        assert(d2 + instance_diags(mv, i + 1) =~= d2 + instance_diags(mv, i as int) + opt_diag(
            duplicate_instance_diag(iv, i as int),
        ) + opt_diag(name_diag(es, mv.ports.len() + i)));
        i = i + 1;
    }
}

// ---------------------------------------------------------------------------
// Documents and graphs
// ---------------------------------------------------------------------------

/// Lowering a document body.
pub open spec fn lower_body_spec(
    source: Seq<char>,
    body: SyntaxBodyView,
    m: ModelView,
    ds: Seq<DiagnosticView>,
) -> (ModelView, Seq<DiagnosticView>) {
    match body {
        SyntaxBodyView::Braced { statements } => lower_statements_spec(source, statements, m, ds),
        SyntaxBodyView::Parenthesized { entries } => lower_choices_spec(source, entries, m, ds),
        SyntaxBodyView::Template { parameters, statements } => lower_statements_spec(
            source,
            statements,
            ModelView { parameters: m.parameters + parameters_spec(source, parameters), ..m },
            ds,
        ),
        SyntaxBodyView::Specialize { parameters, target } => {
            let m1 = ModelView { parameters: m.parameters + parameters_spec(source, parameters), ..m };
            match target {
                Some(t) => (
                    ModelView {
                        bare_expressions: m1.bare_expressions.push(
                            NamedSpanView {
                                name: t.text,
                                target: Seq::empty(),
                                span: SpanView { source, range: t.range },
                            },
                        ),
                        ..m1
                    },
                    ds,
                ),
                None => (m1, ds),
            }
        },
        SyntaxBodyView::Empty => (
            m,
            ds.push(
                error_view(
                    "compiler.empty-syntax-body"@,
                    "document body could not be recovered for lowering"@,
                ),
            ),
        ),
    }
}

/// Lowering a parsed document: without a document kind or a syntax tree
/// there is no model and one error; otherwise the body is lowered into an
/// empty model of that kind, and the duplicate-declaration errors follow the
/// body's errors.
pub open spec fn lower_document_spec(source: Seq<char>, parsed: ParsedView) -> (
    Option<ModelView>,
    Seq<DiagnosticView>,
) {
    match parsed.kind {
        None => (
            None,
            seq![
                error_view(
                    "compiler.missing-document-kind"@,
                    "cannot lower a document without a recognized top-level kind"@,
                ),
            ],
        ),
        Some(kind) => match parsed.syntax {
            None => (
                None,
                seq![
                    error_view(
                        "compiler.missing-syntax"@,
                        "cannot lower a document without a recovered syntax tree"@,
                    ),
                ],
            ),
            Some(syntax) => {
                let (m, ds) = lower_body_spec(
                    source,
                    syntax.body,
                    empty_model(source, kind),
                    Seq::empty(),
                );
                (Some(m), ds + duplicate_diagnostics(m))
            },
        },
    }
}

pub open spec fn opt_model_view(m: Option<SemanticModel>) -> Option<ModelView> {
    match m {
        Some(x) => Some(x@),
        None => None,
    }
}

/// Lowers a parsed document into a source-preserving semantic model.
pub fn lower_document(source: SourceId, parsed: &ParsedDocument) -> (r: (
    Option<SemanticModel>,
    Vec<Diagnostic>,
))
    ensures
        (opt_model_view(r.0), diagnostics_view(r.1@)) == lower_document_spec(source@, parsed@),
{
    let kind = match parsed.kind {
        Some(k) => k,
        None => {
            let d = Diagnostic::error(
                "compiler.missing-document-kind",
                "cannot lower a document without a recognized top-level kind",
            );
            let v = vec![d];
            assert(diagnostics_view(v@) =~= seq![d@]);
            return (None, v);
        },
    };
    let syntax = match &parsed.syntax {
        Some(s) => s,
        None => {
            let d = Diagnostic::error(
                "compiler.missing-syntax",
                "cannot lower a document without a recovered syntax tree",
            );
            let v = vec![d];
            assert(diagnostics_view(v@) =~= seq![d@]);
            return (None, v);
        },
    };
    let mut model = SemanticModel::new(source.duplicate(), kind);
    let mut diagnostics: Vec<Diagnostic> = Vec::new();
    assert(diagnostics_view(diagnostics@) =~= Seq::<DiagnosticView>::empty());
    match &syntax.body {
        SyntaxBody::Braced { statements } => {
            lower_statements(&source, statements.as_slice(), &mut model, &mut diagnostics);
        },
        SyntaxBody::Parenthesized { entries } => {
            lower_choices(&source, entries.as_slice(), &mut model, &mut diagnostics);
        },
        SyntaxBody::Template { parameters, statements } => {
            lower_parameters(&source, parameters.as_slice(), &mut model);
            lower_statements(&source, statements.as_slice(), &mut model, &mut diagnostics);
        },
        SyntaxBody::Specialize { parameters, target } => {
            lower_parameters(&source, parameters.as_slice(), &mut model);
            match target {
                Some(target) => {
                    let decl = BareExpressionDecl {
                        text: target.text.clone(),
                        span: span(&source, target.range),
                    };
                    proof {
                        lemma_views_push(model.bare_expressions@, decl);
                    }
                    model.bare_expressions.push(decl);
                },
                None => {},
            }
        },
        SyntaxBody::Empty => {
            let d = Diagnostic::error(
                "compiler.empty-syntax-body",
                "document body could not be recovered for lowering",
            );
            proof {
                lemma_diagnostics_push(diagnostics@, d);
            }
            diagnostics.push(d);
        },
    }
    detect_duplicate_declarations(&model, &mut diagnostics);
    (Some(model), diagnostics)
}

/// The graph shell of a model: its ports, one node per instance, and its
/// constraints followed by one equality per assignment.
pub open spec fn graph_spec(name: Option<Seq<char>>, m: ModelView) -> GraphView {
    GraphView {
        name,
        ports: m.ports.map_values(
            |p: PortDeclView| PortView { name: p.name, direction: p.direction, poset: p.poset },
        ),
        nodes: m.instances.map_values(|i: InstanceDeclView| NodeView { name: i.name, model: i.model }),
        constraints: m.constraints.map_values(
            |c: ConstraintDeclView| ConstraintView { left: c.left, relation: c.relation, right: c.right },
        ) + m.assignments.map_values(
            |a: AssignmentDeclView| ConstraintView {
                left: a.target,
                relation: Relation::Eq,
                right: a.expression,
            },
        ),
    }
}

/// Builds the current graph shell from the lowered semantic model.
pub fn graph_from_semantic(name: Option<String>, model: &SemanticModel) -> (r: DesignGraph)
    ensures
        r@ == graph_spec(opt_text(name), model@),
{
    let ghost mv = model@;
    let mut ports: Vec<Port> = Vec::new();
    let mut i: usize = 0;
    while i < model.ports.len()
        invariant
            i <= mv.ports.len(),
            mv == model@,
            ports@.map_values(|p: Port| p@) == graph_spec(None, mv).ports.take(i as int),
        decreases mv.ports.len() - i,
    {
        let port = &model.ports[i];
        let p = Port::new(port.name.clone(), port.direction, copy_poset(&port.poset));
        proof {
            lemma_views_index(model.ports@, i as int);
            assert(mv.ports[i as int] == port@);
            assert(ports@.push(p).map_values(|p: Port| p@) =~= ports@.map_values(|p: Port| p@).push(p@));
            assert(graph_spec(None, mv).ports.take(i + 1) =~= graph_spec(None, mv).ports.take(i + 1 - 1).push(p@));
        }
        ports.push(p);
        i = i + 1;
    }
    let mut nodes: Vec<Node> = Vec::new();
    let mut i: usize = 0;
    while i < model.instances.len()
        invariant
            i <= mv.instances.len(),
            mv == model@,
            nodes@.map_values(|n: Node| n@) == graph_spec(None, mv).nodes.take(i as int),
        decreases mv.instances.len() - i,
    {
        let instance = &model.instances[i];
        let n = Node::new(instance.name.clone(), instance.model.clone());
        proof {
            lemma_views_index(model.instances@, i as int);
            assert(mv.instances[i as int] == instance@);
            assert(nodes@.push(n).map_values(|n: Node| n@) =~= nodes@.map_values(|n: Node| n@).push(n@));
            assert(graph_spec(None, mv).nodes.take(i + 1) =~= graph_spec(None, mv).nodes.take(i + 1 - 1).push(n@));
        }
        nodes.push(n);
        i = i + 1;
    }
    let mut constraints: Vec<Constraint> = Vec::new();
    let ghost all = graph_spec(None, mv).constraints;
    let ghost nc = mv.constraints.len() as int;
    let mut i: usize = 0;
    while i < model.constraints.len()
        invariant
            i <= mv.constraints.len(),
            mv == model@,
            all == graph_spec(None, mv).constraints,
            nc == mv.constraints.len(),
            constraints@.map_values(|c: Constraint| c@) == all.take(i as int),
        decreases mv.constraints.len() - i,
    {
        let constraint = &model.constraints[i];
        let c = Constraint::new(constraint.left.clone(), constraint.relation, constraint.right.clone());
        proof {
            lemma_views_index(model.constraints@, i as int);
            assert(mv.constraints[i as int] == constraint@);
            assert(constraints@.push(c).map_values(|c: Constraint| c@) =~= constraints@.map_values(|c: Constraint| c@).push(c@));
            assert(all.take(i + 1) =~= all.take(i + 1 - 1).push(c@));
        }
        constraints.push(c);
        i = i + 1;
    }
    let mut i: usize = 0;
    while i < model.assignments.len()
        invariant
            i <= mv.assignments.len(),
            mv == model@,
            all == graph_spec(None, mv).constraints,
            nc == mv.constraints.len(),
            constraints@.map_values(|c: Constraint| c@) == all.take(nc + i),
        decreases mv.assignments.len() - i,
    {
        let assignment = &model.assignments[i];
        let c = Constraint::new(assignment.target.clone(), Relation::Eq, assignment.expression.clone());
        proof {
            lemma_views_index(model.assignments@, i as int);
            assert(mv.assignments[i as int] == assignment@);
            assert(constraints@.push(c).map_values(|c: Constraint| c@) =~= constraints@.map_values(|c: Constraint| c@).push(c@));
            assert(all.take(nc + i + 1) =~= all.take(nc + i + 1 - 1).push(c@));
        }
        constraints.push(c);
        i = i + 1;
    }
    proof {
        assert(graph_spec(None, mv).ports.take(mv.ports.len() as int) =~= graph_spec(None, mv).ports);
        assert(graph_spec(None, mv).nodes.take(mv.instances.len() as int) =~= graph_spec(None, mv).nodes);
        assert(all.take(nc + mv.assignments.len()) =~= all);
    }
    let g = DesignGraph { name, ports, nodes, constraints };
    assert(g@.ports =~= graph_spec(opt_text(name), mv).ports);
    g
}

// ---------------------------------------------------------------------------
// Laws
// ---------------------------------------------------------------------------

/// How many declarations a model holds, over all its lists.
pub open spec fn declaration_count(m: ModelView) -> int {
    (m.ports.len() + m.instances.len() + m.assignments.len() + m.constraints.len()
        + m.implementations.len() + m.interfaces.len() + m.catalog_records.len() + m.choices.len()
        + m.imports.len() + m.parameters.len() + m.bare_expressions.len()) as int
}

/// An error that a statement's text could not be read as its kind: its
/// code starts with `compiler.malformed-`.
pub open spec fn is_malformed_error(d: DiagnosticView) -> bool {
    d.severity == Severity::Error && d.code.len() >= 19 && d.code.subrange(0, 19) == "compiler.malformed-"@
}

proof fn lemma_malformed_codes()
    ensures
        is_malformed_error(error_view("compiler.malformed-port"@, Seq::empty())),
        is_malformed_error(error_view("compiler.malformed-instance"@, Seq::empty())),
        is_malformed_error(error_view("compiler.malformed-assignment"@, Seq::empty())),
        is_malformed_error(error_view("compiler.malformed-constraint"@, Seq::empty())),
        is_malformed_error(error_view("compiler.malformed-implementation"@, Seq::empty())),
        is_malformed_error(error_view("compiler.malformed-interface-implementation"@, Seq::empty())),
        is_malformed_error(error_view("compiler.malformed-catalog-record"@, Seq::empty())),
        is_malformed_error(error_view("compiler.malformed-import"@, Seq::empty())),
{
    reveal_strlit("compiler.malformed-");
    reveal_strlit("compiler.malformed-port");
    reveal_strlit("compiler.malformed-instance");
    reveal_strlit("compiler.malformed-assignment");
    reveal_strlit("compiler.malformed-constraint");
    reveal_strlit("compiler.malformed-implementation");
    reveal_strlit("compiler.malformed-interface-implementation");
    reveal_strlit("compiler.malformed-catalog-record");
    reveal_strlit("compiler.malformed-import");
    assert("compiler.malformed-port"@.subrange(0, 19) =~= "compiler.malformed-"@);
    assert("compiler.malformed-instance"@.subrange(0, 19) =~= "compiler.malformed-"@);
    assert("compiler.malformed-assignment"@.subrange(0, 19) =~= "compiler.malformed-"@);
    assert("compiler.malformed-constraint"@.subrange(0, 19) =~= "compiler.malformed-"@);
    assert("compiler.malformed-implementation"@.subrange(0, 19) =~= "compiler.malformed-"@);
    assert("compiler.malformed-interface-implementation"@.subrange(0, 19) =~= "compiler.malformed-"@);
    assert("compiler.malformed-catalog-record"@.subrange(0, 19) =~= "compiler.malformed-"@);
    assert("compiler.malformed-import"@.subrange(0, 19) =~= "compiler.malformed-"@);
}

/// Every statement is accounted for: lowering statements adds, per
/// statement, either one declaration or one diagnostic; the diagnostics it
/// adds come after those before it and are `compiler.malformed-` errors;
/// and it keeps the model's source, kind, choices and parameters.
pub proof fn lemma_lowering_accounts_for_every_statement(
    source: Seq<char>,
    sts: Seq<StatementView>,
    m: ModelView,
    ds: Seq<DiagnosticView>,
)
    ensures
        declaration_count(lower_statements_spec(source, sts, m, ds).0) + lower_statements_spec(
            source,
            sts,
            m,
            ds,
        ).1.len() == declaration_count(m) + ds.len() + sts.len(),
        lower_statements_spec(source, sts, m, ds).0.source == m.source,
        lower_statements_spec(source, sts, m, ds).0.kind == m.kind,
        lower_statements_spec(source, sts, m, ds).0.choices == m.choices,
        lower_statements_spec(source, sts, m, ds).0.parameters == m.parameters,
        lower_statements_spec(source, sts, m, ds).1.len() >= ds.len(),
        lower_statements_spec(source, sts, m, ds).1.subrange(0, ds.len() as int) == ds,
        forall|i: int|
            ds.len() <= i < lower_statements_spec(source, sts, m, ds).1.len() ==> is_malformed_error(
                #[trigger] lower_statements_spec(source, sts, m, ds).1[i],
            ),
    decreases sts.len(),
{
    if sts.len() > 0 {
        lemma_lowering_accounts_for_every_statement(source, sts.drop_last(), m, ds);
        let (m1, d1) = lower_statements_spec(source, sts.drop_last(), m, ds);
        lemma_lower_statement_counts(source, sts.last(), m1, d1);
        let d2 = lower_statements_spec(source, sts, m, ds).1;
        assert(d2.subrange(0, ds.len() as int) =~= d1.subrange(0, ds.len() as int));
        assert forall|i: int| ds.len() <= i < d2.len() implies is_malformed_error(#[trigger] d2[i]) by {
            if i < d1.len() {
                assert(d2[i] == d1.subrange(0, d1.len() as int)[i]);
            }
        }
    }
}

proof fn lemma_lower_statement_counts(
    source: Seq<char>,
    st: StatementView,
    m: ModelView,
    ds: Seq<DiagnosticView>,
)
    ensures
        declaration_count(lower_statement_spec(source, st, m, ds).0) + lower_statement_spec(
            source,
            st,
            m,
            ds,
        ).1.len() == declaration_count(m) + ds.len() + 1,
        lower_statement_spec(source, st, m, ds).0.source == m.source,
        lower_statement_spec(source, st, m, ds).0.kind == m.kind,
        lower_statement_spec(source, st, m, ds).0.choices == m.choices,
        lower_statement_spec(source, st, m, ds).0.parameters == m.parameters,
        lower_statement_spec(source, st, m, ds).1.len() >= ds.len(),
        lower_statement_spec(source, st, m, ds).1.subrange(0, ds.len() as int) == ds,
        forall|i: int|
            ds.len() <= i < lower_statement_spec(source, st, m, ds).1.len() ==> is_malformed_error(
                #[trigger] lower_statement_spec(source, st, m, ds).1[i],
            ),
{
    lemma_malformed_codes();
    let sp = SpanView { source, range: st.range };
    let d = lower_statement_spec(source, st, m, ds).1;
    assert(d.subrange(0, ds.len() as int) =~= ds);
    match st.kind {
        StatementKind::Provides => {
            assert(lower_statement_spec(source, st, m, ds) == lower_port_spec(st.text, PortDirection::Provides, sp, m, ds));
        },
        StatementKind::Requires => {
            assert(lower_statement_spec(source, st, m, ds) == lower_port_spec(st.text, PortDirection::Requires, sp, m, ds));
        },
        StatementKind::Instance => {
            assert(lower_statement_spec(source, st, m, ds) == lower_instance_spec(st.text, sp, m, ds));
        },
        StatementKind::Assignment => {
            assert(lower_statement_spec(source, st, m, ds) == lower_assignment_spec(st.text, sp, m, ds));
        },
        StatementKind::Constraint => {
            assert(lower_statement_spec(source, st, m, ds) == lower_constraint_spec(st.text, sp, m, ds));
        },
        StatementKind::ImplementedBy => {
            assert(lower_statement_spec(source, st, m, ds) == lower_implementation_spec(st.text, sp, m, ds));
        },
        StatementKind::Implements => {
            assert(lower_statement_spec(source, st, m, ds) == lower_interface_impl_spec(st.text, sp, m, ds));
        },
        StatementKind::CatalogRecord => {
            assert(lower_statement_spec(source, st, m, ds) == lower_catalog_record_spec(st.text, sp, m, ds));
        },
        StatementKind::Import => {
            assert(lower_statement_spec(source, st, m, ds) == lower_import_spec(st.text, sp, m, ds));
        },
        StatementKind::BareExpression => {},
    }
}

/// Every entry of a `choose (...)` or `intersection (...)` document gives
/// one choice or one diagnostic.
pub proof fn lemma_choices_account_for_every_entry(
    source: Seq<char>,
    es: Seq<EntryView>,
    m: ModelView,
    ds: Seq<DiagnosticView>,
)
    ensures
        lower_choices_spec(source, es, m, ds).0.choices.len() + lower_choices_spec(
            source,
            es,
            m,
            ds,
        ).1.len() == m.choices.len() + ds.len() + es.len(),
        lower_choices_spec(source, es, m, ds).0.ports == m.ports,
        lower_choices_spec(source, es, m, ds).0.instances == m.instances,
    decreases es.len(),
{
    if es.len() > 0 {
        lemma_choices_account_for_every_entry(source, es.drop_last(), m, ds);
    }
}

/// Whether the declared names of a model (ports and instances) are pairwise
/// different.
pub open spec fn names_distinct(m: ModelView) -> bool {
    forall|i: int, j: int|
        0 <= i < j < named_entries(m).len() ==> #[trigger] named_entries(m)[i].0
            != #[trigger] named_entries(m)[j].0
}

proof fn lemma_no_previous_port(m: ModelView, i: int, j: int)
    requires
        names_distinct(m),
        0 <= j <= i < m.ports.len(),
    ensures
        previous_port(m.ports, i, j) is None,
    decreases j,
{
    if j > 0 {
        lemma_named_entries(m, j - 1);
        lemma_named_entries(m, i);
        assert(named_entries(m)[j - 1].0 != named_entries(m)[i].0);
        lemma_no_previous_port(m, i, j - 1);
    }
}

proof fn lemma_no_previous_instance(m: ModelView, i: int, j: int)
    requires
        names_distinct(m),
        0 <= j <= i < m.instances.len(),
    ensures
        previous_instance(m.instances, i, j) is None,
    decreases j,
{
    if j > 0 {
        let p = m.ports.len() as int;
        lemma_named_entries(m, p + j - 1);
        lemma_named_entries(m, p + i);
        assert(named_entries(m)[p + j - 1].0 != named_entries(m)[p + i].0);
        lemma_no_previous_instance(m, i, j - 1);
    }
}

proof fn lemma_no_first_named(m: ModelView, i: int, k: int)
    requires
        names_distinct(m),
        0 <= k <= i < named_entries(m).len(),
    ensures
        first_named(named_entries(m), named_entries(m)[i].0, k) is None,
    decreases k,
{
    if k > 0 {
        lemma_no_first_named(m, i, k - 1);
    }
}

proof fn lemma_no_duplicates_upto(m: ModelView, k: int)
    requires
        names_distinct(m),
        0 <= k,
    ensures
        k <= m.ports.len() ==> port_duplicates(m.ports, k) =~= Seq::<DiagnosticView>::empty(),
        k <= m.ports.len() ==> port_name_diags(named_entries(m), k) =~= Seq::<DiagnosticView>::empty(),
        k <= m.instances.len() ==> instance_diags(m, k) =~= Seq::<DiagnosticView>::empty(),
    decreases k,
{
    if k > 0 {
        lemma_no_duplicates_upto(m, k - 1);
        if k <= m.ports.len() {
            lemma_no_previous_port(m, k - 1, k - 1);
            lemma_named_entries(m, k - 1);
            lemma_no_first_named(m, k - 1, k - 1);
        }
        if k <= m.instances.len() {
            let p = m.ports.len() as int;
            lemma_no_previous_instance(m, k - 1, k - 1);
            lemma_named_entries(m, p + k - 1);
            lemma_no_first_named(m, p + k - 1, p + k - 1);
        }
    }
}

/// A model whose port and instance names are pairwise different gets no
/// duplicate-declaration diagnostics.
pub proof fn lemma_distinct_names_have_no_duplicate_diagnostics(m: ModelView)
    requires
        names_distinct(m),
    ensures
        duplicate_diagnostics(m) =~= Seq::<DiagnosticView>::empty(),
{
    lemma_no_duplicates_upto(m, m.ports.len() as int);
    lemma_no_duplicates_upto(m, m.instances.len() as int);
}

/// Declaring a port twice with the same direction and name is always
/// reported: the duplicate-port diagnostics are not empty.
pub proof fn lemma_repeated_port_is_reported(m: ModelView, i: int, j: int)
    requires
        0 <= j < i < m.ports.len(),
        m.ports[j].direction == m.ports[i].direction,
        m.ports[j].name == m.ports[i].name,
    ensures
        port_duplicates(m.ports, m.ports.len() as int).len() > 0,
{
    lemma_previous_port_found(m.ports, i, i, j);
    lemma_port_duplicates_grow(m.ports, i + 1, m.ports.len() as int);
}

proof fn lemma_previous_port_found(ports: Seq<PortDeclView>, i: int, k: int, j: int)
    requires
        0 <= j < k <= i < ports.len(),
        ports[j].direction == ports[i].direction,
        ports[j].name == ports[i].name,
    ensures
        previous_port(ports, i, k) is Some,
    decreases k,
{
    if k - 1 != j && !(ports[k - 1].direction == ports[i].direction && ports[k - 1].name == ports[i].name) {
        lemma_previous_port_found(ports, i, k - 1, j);
    }
}

proof fn lemma_port_duplicates_grow(ports: Seq<PortDeclView>, k: int, m: int)
    requires
        1 <= k <= m,
        previous_port(ports, k - 1, k - 1) is Some,
    ensures
        port_duplicates(ports, m).len() > 0,
    decreases m - k,
{
    if m > k {
        lemma_port_duplicates_grow(ports, k, m - 1);
    }
}

/// How many of the diagnostics carry a code.
pub open spec fn count_code(ds: Seq<DiagnosticView>, c: Seq<char>) -> nat
    decreases ds.len(),
{
    if ds.len() == 0 {
        0
    } else {
        count_code(ds.drop_last(), c) + if ds.last().code == c {
            1nat
        } else {
            0nat
        }
    }
}

proof fn lemma_count_code_add(a: Seq<DiagnosticView>, b: Seq<DiagnosticView>, c: Seq<char>)
    ensures
        count_code(a + b, c) == count_code(a, c) + count_code(b, c),
    decreases b.len(),
{
    if b.len() == 0 {
        assert(a + b =~= a);
    } else {
        lemma_count_code_add(a, b.drop_last(), c);
        assert((a + b).drop_last() =~= a + b.drop_last());
    }
}

proof fn lemma_count_opt(o: Option<DiagnosticView>, c: Seq<char>)
    ensures
        count_code(opt_diag(o), c) == (if o matches Some(d) && d.code == c {
            1nat
        } else {
            0nat
        }),
{
    match o {
        Some(d) => {
            let s = opt_diag(o);
            assert(s.len() == 1);
            assert(s.last() == d);
            assert(s.drop_last() =~= Seq::<DiagnosticView>::empty());
            assert(count_code(s.drop_last(), c) == 0);
        },
        None => {},
    }
}

/// Port `j` repeats an earlier port of its direction and name.
pub open spec fn is_repeated_port(ports: Seq<PortDeclView>, j: int) -> bool {
    exists|i: int| 0 <= i < j && ports[i].direction == ports[j].direction && #[trigger] ports[i].name == ports[j].name
}

/// How many of the first `k` ports repeat an earlier one.
pub open spec fn repeated_ports(ports: Seq<PortDeclView>, k: int) -> nat
    decreases k,
{
    if k <= 0 {
        0
    } else {
        repeated_ports(ports, k - 1) + if is_repeated_port(ports, k - 1) {
            1nat
        } else {
            0nat
        }
    }
}

/// Instance `j` repeats the name of an earlier instance.
pub open spec fn is_repeated_instance(insts: Seq<InstanceDeclView>, j: int) -> bool {
    exists|i: int| 0 <= i < j && #[trigger] insts[i].name == insts[j].name
}

/// How many of the first `k` instances repeat an earlier name.
pub open spec fn repeated_instances(insts: Seq<InstanceDeclView>, k: int) -> nat
    decreases k,
{
    if k <= 0 {
        0
    } else {
        repeated_instances(insts, k - 1) + if is_repeated_instance(insts, k - 1) {
            1nat
        } else {
            0nat
        }
    }
}

/// Entry `i` carries a name first declared, earlier, in another role.
pub open spec fn is_cross_role(es: Seq<(Seq<char>, Seq<char>, SpanView)>, i: int) -> bool {
    exists|j: int|
        0 <= j < i && #[trigger] es[j].0 == es[i].0 && es[j].1 != es[i].1 && forall|l: int|
            0 <= l < j ==> es[l].0 != es[i].0
}

/// How many of the first `k` entries carry a name first declared in
/// another role.
pub open spec fn cross_role_names(es: Seq<(Seq<char>, Seq<char>, SpanView)>, k: int) -> nat
    decreases k,
{
    if k <= 0 {
        0
    } else {
        cross_role_names(es, k - 1) + if is_cross_role(es, k - 1) {
            1nat
        } else {
            0nat
        }
    }
}

proof fn lemma_previous_port_exists(ports: Seq<PortDeclView>, i: int, k: int)
    requires
        0 <= k <= i < ports.len(),
    ensures
        previous_port(ports, i, k) is Some <==> exists|l: int|
            0 <= l < k && ports[l].direction == ports[i].direction && #[trigger] ports[l].name == ports[i].name,
    decreases k,
{
    if k > 0 {
        lemma_previous_port_exists(ports, i, k - 1);
    }
}

proof fn lemma_previous_instance_exists(insts: Seq<InstanceDeclView>, i: int, k: int)
    requires
        0 <= k <= i < insts.len(),
    ensures
        previous_instance(insts, i, k) is Some <==> exists|l: int| 0 <= l < k && #[trigger] insts[l].name == insts[i].name,
    decreases k,
{
    if k > 0 {
        lemma_previous_instance_exists(insts, i, k - 1);
    }
}

proof fn lemma_first_named_is_first(es: Seq<(Seq<char>, Seq<char>, SpanView)>, name: Seq<char>, k: int)
    requires
        0 <= k <= es.len(),
    ensures
        first_named(es, name, k) matches Some(j) ==> 0 <= j < k && es[j].0 == name && forall|l: int|
            0 <= l < j ==> es[l].0 != name,
        first_named(es, name, k) is None ==> forall|l: int| 0 <= l < k ==> es[l].0 != name,
    decreases k,
{
    if k > 0 {
        lemma_first_named_is_first(es, name, k - 1);
    }
}

proof fn lemma_name_diag_cross_role(es: Seq<(Seq<char>, Seq<char>, SpanView)>, i: int)
    requires
        0 <= i < es.len(),
    ensures
        name_diag(es, i) is Some <==> is_cross_role(es, i),
        name_diag(es, i) matches Some(d) ==> d.code == "compiler.duplicate-name"@ && d.severity == Severity::Error,
{
    lemma_first_named_is_first(es, es[i].0, i);
    match first_named(es, es[i].0, i) {
        Some(j) => {
            if is_cross_role(es, i) {
                let w = choose|w: int|
                    0 <= w < i && #[trigger] es[w].0 == es[i].0 && es[w].1 != es[i].1 && forall|l: int|
                        0 <= l < w ==> es[l].0 != es[i].0;
                if w < j {
                } else if j < w {
                    assert(es[j].0 != es[i].0);
                }
            }
        },
        None => {
            if is_cross_role(es, i) {
                let w = choose|w: int|
                    0 <= w < i && #[trigger] es[w].0 == es[i].0 && es[w].1 != es[i].1 && forall|l: int|
                        0 <= l < w ==> es[l].0 != es[i].0;
                assert(es[w].0 != es[i].0);
            }
        },
    }
}

proof fn lemma_port_duplicates_count(ports: Seq<PortDeclView>, k: int)
    requires
        0 <= k <= ports.len(),
    ensures
        port_duplicates(ports, k).len() == repeated_ports(ports, k),
        count_code(port_duplicates(ports, k), "compiler.duplicate-port"@) == repeated_ports(ports, k),
        forall|i: int|
            0 <= i < port_duplicates(ports, k).len() ==> (#[trigger] port_duplicates(ports, k)[i]).code
                == "compiler.duplicate-port"@ && port_duplicates(ports, k)[i].severity == Severity::Error,
    decreases k,
{
    if k > 0 {
        lemma_port_duplicates_count(ports, k - 1);
        lemma_previous_port_exists(ports, k - 1, k - 1);
        let o = duplicate_port_diag(ports, k - 1);
        lemma_count_code_add(port_duplicates(ports, k - 1), opt_diag(o), "compiler.duplicate-port"@);
        lemma_count_opt(o, "compiler.duplicate-port"@);
        let p = port_duplicates(ports, k - 1);
        let q = port_duplicates(ports, k);
        assert forall|i: int| 0 <= i < q.len() implies (#[trigger] q[i]).code == "compiler.duplicate-port"@
            && q[i].severity == Severity::Error by {
            if i < p.len() {
                assert(q[i] == p[i]);
            }
        }
    }
}

proof fn lemma_port_name_diags_count(es: Seq<(Seq<char>, Seq<char>, SpanView)>, k: int)
    requires
        0 <= k <= es.len(),
    ensures
        port_name_diags(es, k).len() == cross_role_names(es, k),
        count_code(port_name_diags(es, k), "compiler.duplicate-name"@) == cross_role_names(es, k),
        forall|i: int|
            0 <= i < port_name_diags(es, k).len() ==> (#[trigger] port_name_diags(es, k)[i]).code
                == "compiler.duplicate-name"@ && port_name_diags(es, k)[i].severity == Severity::Error,
    decreases k,
{
    if k > 0 {
        lemma_port_name_diags_count(es, k - 1);
        lemma_name_diag_cross_role(es, k - 1);
        let o = name_diag(es, k - 1);
        lemma_count_code_add(port_name_diags(es, k - 1), opt_diag(o), "compiler.duplicate-name"@);
        lemma_count_opt(o, "compiler.duplicate-name"@);
        let p = port_name_diags(es, k - 1);
        let q = port_name_diags(es, k);
        assert forall|i: int| 0 <= i < q.len() implies (#[trigger] q[i]).code == "compiler.duplicate-name"@
            && q[i].severity == Severity::Error by {
            if i < p.len() {
                assert(q[i] == p[i]);
            }
        }
    }
}

proof fn lemma_duplicate_codes_differ()
    ensures
        "compiler.duplicate-port"@ != "compiler.duplicate-name"@,
        "compiler.duplicate-port"@ != "compiler.duplicate-instance"@,
        "compiler.duplicate-name"@ != "compiler.duplicate-instance"@,
{
    reveal_strlit("compiler.duplicate-port");
    reveal_strlit("compiler.duplicate-name");
    reveal_strlit("compiler.duplicate-instance");
    assert("compiler.duplicate-port"@[19] == 'p' && "compiler.duplicate-name"@[19] == 'n');
    assert("compiler.duplicate-instance"@[19] == 'i');
}

proof fn lemma_instance_diags_count(m: ModelView, k: int)
    requires
        0 <= k <= m.instances.len(),
    ensures
        ({
            let ds = instance_diags(m, k);
            let es = named_entries(m);
            let p = m.ports.len() as int;
            &&& count_code(ds, "compiler.duplicate-instance"@) == repeated_instances(m.instances, k)
            &&& count_code(ds, "compiler.duplicate-name"@) + cross_role_names(es, p) == cross_role_names(es, p + k)
            &&& count_code(ds, "compiler.duplicate-port"@) == 0
            &&& ds.len() == repeated_instances(m.instances, k) + cross_role_names(es, p + k) - cross_role_names(es, p)
            &&& forall|i: int| 0 <= i < ds.len() ==> (#[trigger] ds[i]).severity == Severity::Error
        }),
    decreases k,
{
    let es = named_entries(m);
    let p = m.ports.len() as int;
    if k > 0 {
        lemma_instance_diags_count(m, k - 1);
        lemma_duplicate_codes_differ();
        lemma_previous_instance_exists(m.instances, k - 1, k - 1);
        lemma_named_entries(m, p + k - 1);
        lemma_name_diag_cross_role(es, p + k - 1);
        let a = instance_diags(m, k - 1);
        let o1 = duplicate_instance_diag(m.instances, k - 1);
        let o2 = name_diag(es, p + k - 1);
        let ab = a + opt_diag(o1);
        assert(instance_diags(m, k) == ab + opt_diag(o2));
        let cs = seq!["compiler.duplicate-instance"@, "compiler.duplicate-name"@, "compiler.duplicate-port"@];
        lemma_count_code_add(a, opt_diag(o1), "compiler.duplicate-instance"@);
        lemma_count_code_add(ab, opt_diag(o2), "compiler.duplicate-instance"@);
        lemma_count_code_add(a, opt_diag(o1), "compiler.duplicate-name"@);
        lemma_count_code_add(ab, opt_diag(o2), "compiler.duplicate-name"@);
        lemma_count_code_add(a, opt_diag(o1), "compiler.duplicate-port"@);
        lemma_count_code_add(ab, opt_diag(o2), "compiler.duplicate-port"@);
        lemma_count_opt(o1, "compiler.duplicate-instance"@);
        lemma_count_opt(o1, "compiler.duplicate-name"@);
        lemma_count_opt(o1, "compiler.duplicate-port"@);
        lemma_count_opt(o2, "compiler.duplicate-instance"@);
        lemma_count_opt(o2, "compiler.duplicate-name"@);
        lemma_count_opt(o2, "compiler.duplicate-port"@);
        let ds = instance_diags(m, k);
        assert forall|i: int| 0 <= i < ds.len() implies (#[trigger] ds[i]).severity == Severity::Error by {
            if i < a.len() {
                assert(ds[i] == a[i]);
            } else if i < ab.len() {
                assert(ds[i] == opt_diag(o1)[i - a.len()]);
            } else {
                assert(ds[i] == opt_diag(o2)[i - ab.len()]);
            }
        }
    }
}

/// Duplicate declarations are counted exactly: the duplicate-port errors
/// are as many as the ports that repeat an earlier port of their direction
/// and name, the duplicate-instance errors as many as the instances that
/// repeat an earlier instance name, and the duplicate-name errors as many
/// as the ports and instances whose name was first declared in another
/// role; every diagnostic is an error, and there are no others.
pub proof fn duplicate_diagnostics_count_repeated_declarations(m: ModelView)
    ensures
        ({
            let ds = duplicate_diagnostics(m);
            let es = named_entries(m);
            &&& forall|i: int| 0 <= i < ds.len() ==> (#[trigger] ds[i]).severity == Severity::Error
            &&& count_code(ds, "compiler.duplicate-port"@) == repeated_ports(m.ports, m.ports.len() as int)
            &&& count_code(ds, "compiler.duplicate-instance"@) == repeated_instances(
                m.instances,
                m.instances.len() as int,
            )
            &&& count_code(ds, "compiler.duplicate-name"@) == cross_role_names(es, es.len() as int)
            &&& ds.len() == repeated_ports(m.ports, m.ports.len() as int) + repeated_instances(
                m.instances,
                m.instances.len() as int,
            ) + cross_role_names(es, es.len() as int)
        }),
{
    let es = named_entries(m);
    let p = m.ports.len() as int;
    let n = m.instances.len() as int;
    assert(es.len() == p + n);
    lemma_duplicate_codes_differ();
    lemma_port_duplicates_count(m.ports, p);
    lemma_port_name_diags_count(es, p);
    lemma_instance_diags_count(m, n);
    let a = port_duplicates(m.ports, p);
    let b = port_name_diags(es, p);
    let c = instance_diags(m, n);
    let ds = duplicate_diagnostics(m);
    assert(ds == a + b + c);
    // count of each code in a and b
    assert(count_code(a, "compiler.duplicate-name"@) == 0 && count_code(a, "compiler.duplicate-instance"@) == 0) by {
        lemma_count_none(a, "compiler.duplicate-name"@);
        lemma_count_none(a, "compiler.duplicate-instance"@);
    }
    assert(count_code(b, "compiler.duplicate-port"@) == 0 && count_code(b, "compiler.duplicate-instance"@) == 0) by {
        lemma_count_none(b, "compiler.duplicate-port"@);
        lemma_count_none(b, "compiler.duplicate-instance"@);
    }
    lemma_count_code_add(a, b, "compiler.duplicate-port"@);
    lemma_count_code_add(a + b, c, "compiler.duplicate-port"@);
    lemma_count_code_add(a, b, "compiler.duplicate-name"@);
    lemma_count_code_add(a + b, c, "compiler.duplicate-name"@);
    lemma_count_code_add(a, b, "compiler.duplicate-instance"@);
    lemma_count_code_add(a + b, c, "compiler.duplicate-instance"@);
    assert forall|i: int| 0 <= i < ds.len() implies (#[trigger] ds[i]).severity == Severity::Error by {
        if i < a.len() {
            assert(ds[i] == a[i]);
        } else if i < a.len() + b.len() {
            assert(ds[i] == b[i - a.len()]);
        } else {
            assert(ds[i] == c[i - a.len() - b.len()]);
        }
    }
}

proof fn lemma_count_none(ds: Seq<DiagnosticView>, c: Seq<char>)
    requires
        forall|i: int| 0 <= i < ds.len() ==> (#[trigger] ds[i]).code != c,
    ensures
        count_code(ds, c) == 0,
    decreases ds.len(),
{
    if ds.len() > 0 {
        assert forall|i: int| 0 <= i < ds.drop_last().len() implies (#[trigger] ds.drop_last()[i]).code != c by {
            assert(ds.drop_last()[i] == ds[i]);
        }
        lemma_count_none(ds.drop_last(), c);
    }
}

/// The design graph keeps the model's declarations in order: port `i` of
/// the graph has the name, direction and poset of port `i` of the model,
/// node `i` the name and model of instance `i`, and the constraints are the
/// model's constraints with their sides and relation, then each assignment
/// as an equality of its target and expression.
pub proof fn graph_keeps_the_model_declarations(name: Option<Seq<char>>, m: ModelView)
    ensures
        ({
            let g = graph_spec(name, m);
            &&& g.name == name
            &&& g.ports.len() == m.ports.len()
            &&& forall|i: int|
                0 <= i < m.ports.len() ==> (#[trigger] g.ports[i]).direction == m.ports[i].direction
                    && g.ports[i].name == m.ports[i].name && g.ports[i].poset == m.ports[i].poset
            &&& g.nodes.len() == m.instances.len()
            &&& forall|i: int|
                0 <= i < m.instances.len() ==> (#[trigger] g.nodes[i]).name == m.instances[i].name
                    && g.nodes[i].model == m.instances[i].model
            &&& g.constraints.len() == m.constraints.len() + m.assignments.len()
            &&& forall|i: int|
                0 <= i < m.constraints.len() ==> (#[trigger] g.constraints[i]).left == m.constraints[i].left
                    && g.constraints[i].relation == m.constraints[i].relation && g.constraints[i].right
                    == m.constraints[i].right
            &&& forall|i: int|
                0 <= i < m.assignments.len() ==> (#[trigger] g.constraints[m.constraints.len() + i]).left
                    == m.assignments[i].target && g.constraints[m.constraints.len() + i].relation == Relation::Eq
                    && g.constraints[m.constraints.len() + i].right == m.assignments[i].expression
        }),
{
    let g = graph_spec(name, m);
    let cs = m.constraints.map_values(
        |c: ConstraintDeclView| ConstraintView { left: c.left, relation: c.relation, right: c.right },
    );
    let asg = m.assignments.map_values(
        |a: AssignmentDeclView| ConstraintView { left: a.target, relation: Relation::Eq, right: a.expression },
    );
    assert(g.constraints == cs + asg);
    assert forall|i: int| 0 <= i < m.assignments.len() implies (#[trigger] g.constraints[m.constraints.len() + i]).left
        == m.assignments[i].target && g.constraints[m.constraints.len() + i].relation == Relation::Eq
        && g.constraints[m.constraints.len() + i].right == m.assignments[i].expression by {
        assert(g.constraints[m.constraints.len() + i] == asg[i]);
    }
    assert forall|i: int| 0 <= i < m.constraints.len() implies (#[trigger] g.constraints[i]).left == m.constraints[i].left
        && g.constraints[i].relation == m.constraints[i].relation && g.constraints[i].right == m.constraints[i].right by {
        assert(g.constraints[i] == cs[i]);
    }
}

/// A lowered constraint carries the relation of the operator its text
/// splits at: `Leq` for a less-than operator (`<=`, `≤`, `⪯`), `Geq` for a
/// greater-than one (`>=`, `≥`, `⪰`), with the text before the operator as
/// its left side.
pub proof fn constraint_relation_follows_the_operator(text: Seq<char>, sp: SpanView)
    ensures
        constraint_decl_spec(text, sp) matches Some(c) ==> exists|i: int|
            0 <= i < text.len() && c.left == crate::text::trim(#[trigger] text.subrange(0, i)) && (c.relation == Relation::Leq
                <==> crate::declaration::starts_less(text[i])) && (c.relation == Relation::Geq
                <==> crate::declaration::starts_greater(text[i])),
{
    crate::declaration::relation_follows_the_operator(text);
}

} // verus!
