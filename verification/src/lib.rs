//! MCDPL language front end: source spans, diagnostics, lexing, document
//! structure, expression and unit parsing, unit canonicalization, and
//! statement-level lowering into a semantic model.

pub mod agreement;
pub mod cli;
pub mod completion;
pub mod declaration;
pub mod diagnostic;
pub mod editor;
pub mod expression;
pub mod graph;
pub mod line_index;
pub mod lookup;
pub mod poset;
pub mod project;
pub mod semantic;
pub mod semantic_tokens;
pub mod source;
pub mod split;
pub mod symbols;
pub mod syntax;
pub mod text;
pub mod units;

pub use diagnostic::{CheckReport, Diagnostic, Severity};
pub use expression::{
    parse_expression_list_text, parse_expression_text, parse_unit_expression_text,
    AggregateExpression, AggregateOperator, BinaryOperator, Expression, LiteralExpression,
    PortReference, QuantityLiteral, UnaryOperator, UnitExpression,
};
pub use graph::{Constraint, DesignGraph, Node, Port, PortDirection, Relation};
pub use poset::{NamedPoset, PosetRef};
pub use semantic::{
    graph_from_semantic, lower_document, AssignmentDecl, BareExpressionDecl, CatalogRecordDecl,
    ChoiceDecl, ConstraintDecl, ImplementationDecl, ImportDecl, InstanceDecl, InterfaceImplDecl,
    ParameterDecl, PortDecl, SemanticModel,
};
pub use source::{SourceId, TextRange, TextSpan};
pub use syntax::{
    lex, parse_document, DocumentKind, ParsedDocument, Statement, StatementKind, SyntaxBody,
    SyntaxDocument, SyntaxEntry, Token, TokenKind,
};
pub use units::{canonical_unit_label, canonical_unit_option, normalize_unit_text, units_equivalent};
