//! Small expression, value, and unit parser for lowering.

use vstd::prelude::*;
use crate::graph::PortDirection;
use crate::split::{split_top_level, split_top_level_spec, strings_view};
#[allow(unused_imports)]
use crate::syntax::{in_run, is_ident_continue_spec, is_ident_start_spec, scan_run, Run, lemma_scan_run};
#[allow(unused_imports)]
use crate::text::{
    chars_of, eq_lit, is_alphabetic, is_alphanumeric, is_ascii_digit, is_ascii_digit_spec,
    is_numeric, is_whitespace, push_chars, push_range, remove_whitespace, remove_whitespace_chars,
    string_from_chars, string_from_range, trim, trim_bounds, trim_chars, unicode_alphabetic,
    unicode_alphanumeric, unicode_numeric, unicode_whitespace,
};

verus! {

/// Parsed unit expression.
#[derive(Debug, PartialEq, Eq)]
pub enum UnitExpression {
    /// Unitless value.
    One,
    /// Atomic unit symbol, such as `m`, `s`, `USD`, or `dimensionless`.
    Symbol(String),
    /// Multiplicative unit expression.
    Product(Vec<UnitExpression>),
    /// Quotient unit expression.
    Quotient {
        /// Numerator unit expression.
        numerator: Box<UnitExpression>,
        /// Denominator unit expression.
        denominator: Box<UnitExpression>,
    },
    /// Power unit expression.
    Power {
        /// Base unit expression.
        base: Box<UnitExpression>,
        /// Exponent text.
        exponent: String,
    },
    /// Raw fallback when the unit parser cannot safely structure the expression.
    Raw(String),
}

/// Numeric quantity literal with a parsed unit expression.
#[derive(Debug, PartialEq, Eq)]
pub struct QuantityLiteral {
    /// Magnitude text.
    pub magnitude: String,
    /// Optional unit expression.
    pub unit: Option<UnitExpression>,
}

/// Literal expression.
#[derive(Debug, PartialEq, Eq)]
pub enum LiteralExpression {
    /// Unit value.
    Unit,
    /// Boolean literal.
    Bool(bool),
    /// Numeric quantity literal.
    Quantity(QuantityLiteral),
    /// Symbolic finite-poset value, optionally qualified by a poset name.
    Symbol {
        /// Optional poset/type name before `:`.
        poset: Option<String>,
        /// Symbol value.
        value: String,
    },
    /// Positional tuple value.
    Tuple(Vec<Expression>),
}

/// Parsed expression.
#[derive(Debug, PartialEq, Eq)]
pub enum Expression {
    /// Literal expression.
    Literal(LiteralExpression),
    /// Local name reference.
    Name(String),
    /// Provided/required port reference.
    Port(PortReference),
    /// Field access, for example `(required cost).total`.
    FieldAccess {
        /// Base expression.
        base: Box<Expression>,
        /// Field name.
        field: String,
    },
    /// Function call.
    Call {
        /// Function name.
        function: String,
        /// Positional arguments.
        arguments: Vec<Expression>,
    },
    /// Unary expression.
    Unary {
        /// Unary operator.
        operator: UnaryOperator,
        /// Operand.
        operand: Box<Expression>,
    },
    /// Binary expression.
    Binary {
        /// Binary operator.
        operator: BinaryOperator,
        /// Left operand.
        left: Box<Expression>,
        /// Right operand.
        right: Box<Expression>,
    },
    /// Aggregate shorthand, for example `sum mass required by *`.
    Aggregate(AggregateExpression),
    /// Raw fallback when the expression parser cannot safely structure the text.
    Raw(String),
}

/// Provided/required port reference.
#[derive(Debug, PartialEq, Eq)]
pub struct PortReference {
    /// Port direction.
    pub direction: PortDirection,
    /// Port name.
    pub port: String,
    /// Optional instance name after `by`.
    pub instance: Option<String>,
}

/// Aggregate expression.
#[derive(Debug, PartialEq, Eq)]
pub struct AggregateExpression {
    /// Aggregate operator.
    pub operator: AggregateOperator,
    /// Port being aggregated.
    pub port: String,
    /// Direction being aggregated.
    pub direction: PortDirection,
    /// Optional instance selector. `None` means wildcard.
    pub instance: Option<String>,
}

/// Aggregate operator.
#[derive(Clone, Copy, Debug, PartialEq, Eq, Structural)]
pub enum AggregateOperator {
    /// Sum aggregate.
    Sum,
}

/// Unary operator.
#[derive(Clone, Copy, Debug, PartialEq, Eq, Structural)]
pub enum UnaryOperator {
    /// Numeric negation.
    Neg,
}

/// Binary operator.
#[derive(Clone, Copy, Debug, PartialEq, Eq, Structural)]
pub enum BinaryOperator {
    /// Addition.
    Add,
    /// Subtraction.
    Sub,
    /// Multiplication.
    Mul,
    /// Division.
    Div,
}

// ---------------------------------------------------------------------------
// Views
// ---------------------------------------------------------------------------

pub enum UnitView {
    One,
    Symbol(Seq<char>),
    Product(Seq<UnitView>),
    Quotient { numerator: Box<UnitView>, denominator: Box<UnitView> },
    Power { base: Box<UnitView>, exponent: Seq<char> },
    Raw(Seq<char>),
}

pub struct PortRefView {
    pub direction: PortDirection,
    pub port: Seq<char>,
    pub instance: Option<Seq<char>>,
}

pub struct AggregateView {
    pub operator: AggregateOperator,
    pub port: Seq<char>,
    pub direction: PortDirection,
    pub instance: Option<Seq<char>>,
}

pub enum LiteralView {
    Unit,
    Bool(bool),
    Quantity { magnitude: Seq<char>, unit: Option<UnitView> },
    Symbol { poset: Option<Seq<char>>, value: Seq<char> },
    Tuple(Seq<ExprView>),
}

pub enum ExprView {
    Literal(LiteralView),
    Name(Seq<char>),
    Port(PortRefView),
    FieldAccess { base: Box<ExprView>, field: Seq<char> },
    Call { function: Seq<char>, arguments: Seq<ExprView> },
    Unary { operator: UnaryOperator, operand: Box<ExprView> },
    Binary { operator: BinaryOperator, left: Box<ExprView>, right: Box<ExprView> },
    Aggregate(AggregateView),
    Raw(Seq<char>),
}

pub open spec fn opt_text(o: Option<String>) -> Option<Seq<char>> {
    match o {
        Some(s) => Some(s@),
        None => None,
    }
}

pub open spec fn unit_view(u: UnitExpression) -> UnitView
    decreases u,
{
    match u {
        UnitExpression::One => UnitView::One,
        UnitExpression::Symbol(s) => UnitView::Symbol(s@),
        UnitExpression::Product(v) => UnitView::Product(units_view(v@)),
        UnitExpression::Quotient { numerator, denominator } => UnitView::Quotient {
            numerator: Box::new(unit_view(*numerator)),
            denominator: Box::new(unit_view(*denominator)),
        },
        UnitExpression::Power { base, exponent } => UnitView::Power {
            base: Box::new(unit_view(*base)),
            exponent: exponent@,
        },
        UnitExpression::Raw(s) => UnitView::Raw(s@),
    }
}

pub open spec fn units_view(s: Seq<UnitExpression>) -> Seq<UnitView>
    decreases s,
{
    if s.len() == 0 {
        Seq::empty()
    } else {
        seq![unit_view(s[0])] + units_view(s.subrange(1, s.len() as int))
    }
}

pub open spec fn opt_unit_view(u: Option<UnitExpression>) -> Option<UnitView> {
    match u {
        Some(x) => Some(unit_view(x)),
        None => None,
    }
}

pub open spec fn port_ref_view(p: PortReference) -> PortRefView {
    PortRefView { direction: p.direction, port: p.port@, instance: opt_text(p.instance) }
}

pub open spec fn aggregate_view(a: AggregateExpression) -> AggregateView {
    AggregateView {
        operator: a.operator,
        port: a.port@,
        direction: a.direction,
        instance: opt_text(a.instance),
    }
}

pub open spec fn literal_view(l: LiteralExpression) -> LiteralView
    decreases l,
{
    match l {
        LiteralExpression::Unit => LiteralView::Unit,
        LiteralExpression::Bool(b) => LiteralView::Bool(b),
        LiteralExpression::Quantity(q) => LiteralView::Quantity {
            magnitude: q.magnitude@,
            unit: opt_unit_view(q.unit),
        },
        LiteralExpression::Symbol { poset, value } => LiteralView::Symbol {
            poset: opt_text(poset),
            value: value@,
        },
        LiteralExpression::Tuple(v) => LiteralView::Tuple(exprs_view(v@)),
    }
}

pub open spec fn expr_view(e: Expression) -> ExprView
    decreases e,
{
    match e {
        Expression::Literal(l) => ExprView::Literal(literal_view(l)),
        Expression::Name(s) => ExprView::Name(s@),
        Expression::Port(p) => ExprView::Port(port_ref_view(p)),
        Expression::FieldAccess { base, field } => ExprView::FieldAccess {
            base: Box::new(expr_view(*base)),
            field: field@,
        },
        Expression::Call { function, arguments } => ExprView::Call {
            function: function@,
            arguments: exprs_view(arguments@),
        },
        Expression::Unary { operator, operand } => ExprView::Unary {
            operator,
            operand: Box::new(expr_view(*operand)),
        },
        Expression::Binary { operator, left, right } => ExprView::Binary {
            operator,
            left: Box::new(expr_view(*left)),
            right: Box::new(expr_view(*right)),
        },
        Expression::Aggregate(a) => ExprView::Aggregate(aggregate_view(a)),
        Expression::Raw(s) => ExprView::Raw(s@),
    }
}

pub open spec fn exprs_view(s: Seq<Expression>) -> Seq<ExprView>
    decreases s,
{
    if s.len() == 0 {
        Seq::empty()
    } else {
        seq![expr_view(s[0])] + exprs_view(s.subrange(1, s.len() as int))
    }
}

pub proof fn lemma_units_view(s: Seq<UnitExpression>)
    ensures
        units_view(s).len() == s.len(),
        forall|i: int| 0 <= i < s.len() ==> #[trigger] units_view(s)[i] == unit_view(s[i]),
    decreases s.len(),
{
    if s.len() > 0 {
        lemma_units_view(s.subrange(1, s.len() as int));
        assert forall|i: int| 0 <= i < s.len() implies #[trigger] units_view(s)[i] == unit_view(s[i]) by {
            if i > 0 {
                assert(s.subrange(1, s.len() as int)[i - 1] == s[i]);
            }
        }
    }
}

pub proof fn lemma_exprs_view(s: Seq<Expression>)
    ensures
        exprs_view(s).len() == s.len(),
        forall|i: int| 0 <= i < s.len() ==> #[trigger] exprs_view(s)[i] == expr_view(s[i]),
    decreases s.len(),
{
    if s.len() > 0 {
        lemma_exprs_view(s.subrange(1, s.len() as int));
        assert forall|i: int| 0 <= i < s.len() implies #[trigger] exprs_view(s)[i] == expr_view(s[i]) by {
            if i > 0 {
                assert(s.subrange(1, s.len() as int)[i - 1] == s[i]);
            }
        }
    }
}

pub proof fn lemma_exprs_view_push(s: Seq<Expression>, e: Expression)
    ensures
        exprs_view(s.push(e)) == exprs_view(s).push(expr_view(e)),
{
    lemma_exprs_view(s);
    lemma_exprs_view(s.push(e));
    assert(exprs_view(s.push(e)) =~= exprs_view(s).push(expr_view(e)));
}

pub proof fn lemma_units_view_push(s: Seq<UnitExpression>, e: UnitExpression)
    ensures
        units_view(s.push(e)) == units_view(s).push(unit_view(e)),
{
    lemma_units_view(s);
    lemma_units_view(s.push(e));
    assert(units_view(s.push(e)) =~= units_view(s).push(unit_view(e)));
}

impl QuantityLiteral {
    /// Creates a quantity literal.
    pub fn new(magnitude: String, unit: Option<UnitExpression>) -> (r: QuantityLiteral)
        ensures
            r.magnitude@ == magnitude@,
            r.unit == unit,
    {
        QuantityLiteral { magnitude, unit }
    }
}

impl PortReference {
    /// Creates a port reference.
    pub fn new(direction: PortDirection, port: String, instance: Option<String>) -> (r: PortReference)
        ensures
            port_ref_view(r) == (PortRefView {
                direction,
                port: port@,
                instance: opt_text(instance),
            }),
    {
        PortReference { direction, port, instance }
    }
}

} // verus!

verus! {

// ---------------------------------------------------------------------------
// Expression lexer
// ---------------------------------------------------------------------------

#[derive(Clone, Copy, Debug, PartialEq, Eq, Structural)]
pub enum ExprTokenKind {
    Word,
    Number,
    Operator,
    Punctuation,
    Backtick,
}

pub struct ExprTok {
    pub kind: ExprTokenKind,
    pub text: Seq<char>,
}

struct ExprToken {
    kind: ExprTokenKind,
    text: Vec<char>,
}

spec fn expr_tokens_view(ts: Seq<ExprToken>) -> Seq<ExprTok> {
    ts.map_values(|t: ExprToken| ExprTok { kind: t.kind, text: t.text@ })
}

pub open spec fn is_expr_operator_spec(c: char) -> bool {
    c == '+' || c == '-' || c == '*' || c == '/' || c == '·' || c == '^'
}

pub open spec fn is_expr_punctuation_spec(c: char) -> bool {
    c == '(' || c == ')' || c == '[' || c == ']' || c == ',' || c == ':' || c == '.' || c == '⟨'
        || c == '⟩'
}

fn is_operator_char(c: char) -> (r: bool)
    ensures
        r == is_expr_operator_spec(c),
{
    c == '+' || c == '-' || c == '*' || c == '/' || c == '·' || c == '^'
}

fn is_punctuation(c: char) -> (r: bool)
    ensures
        r == is_expr_punctuation_spec(c),
{
    c == '(' || c == ')' || c == '[' || c == ']' || c == ',' || c == ':' || c == '.' || c == '⟨'
        || c == '⟩'
}

fn is_word_start(c: char) -> (r: bool)
    ensures
        r == is_ident_start_spec(c),
{
    c == '_' || is_alphabetic(c) || is_numeric(c)
}

fn is_word_continue(c: char) -> (r: bool)
    ensures
        r == is_ident_continue_spec(c),
{
    c == '_' || is_alphanumeric(c) || is_numeric(c)
}

/// End of a number whose first digit is before `j`: digits, `.` and `_`, and
/// at most one exponent marker `e`/`E` with an optional sign after it.
pub open spec fn scan_number(cs: Seq<char>, j: int, seen_exponent: bool) -> int
    decreases cs.len() - j,
{
    if j < 0 || j >= cs.len() {
        j
    } else if is_ascii_digit_spec(cs[j]) || cs[j] == '.' || cs[j] == '_' {
        scan_number(cs, j + 1, seen_exponent)
    } else if !seen_exponent && (cs[j] == 'e' || cs[j] == 'E') {
        if j + 1 < cs.len() && (cs[j + 1] == '+' || cs[j + 1] == '-') {
            scan_number(cs, j + 2, true)
        } else {
            scan_number(cs, j + 1, true)
        }
    } else {
        j
    }
}

/// End of the run of expression operator characters starting at `j`.
pub open spec fn scan_operators(cs: Seq<char>, j: int) -> int
    decreases cs.len() - j,
{
    if 0 <= j < cs.len() && is_expr_operator_spec(cs[j]) {
        scan_operators(cs, j + 1)
    } else {
        j
    }
}

/// Kind and end of the expression token starting at a non-whitespace character.
pub open spec fn expr_token_at(cs: Seq<char>, i: int) -> (ExprTokenKind, int) {
    let c = cs[i];
    if c == '`' {
        (ExprTokenKind::Backtick, i + 1)
    } else if is_ascii_digit_spec(c) {
        (ExprTokenKind::Number, scan_number(cs, i + 1, false))
    } else if is_ident_start_spec(c) {
        (ExprTokenKind::Word, scan_run(cs, i + 1, Run::IdentTail))
    } else if is_expr_operator_spec(c) {
        (ExprTokenKind::Operator, scan_operators(cs, i + 1))
    } else if is_expr_punctuation_spec(c) {
        (ExprTokenKind::Punctuation, i + 1)
    } else {
        (ExprTokenKind::Word, i + 1)
    }
}

proof fn lemma_scan_number(cs: Seq<char>, j: int, seen: bool)
    requires
        0 <= j <= cs.len(),
    ensures
        j <= scan_number(cs, j, seen) <= cs.len(),
    decreases cs.len() - j,
{
    if j < cs.len() {
        if is_ascii_digit_spec(cs[j]) || cs[j] == '.' || cs[j] == '_' {
            lemma_scan_number(cs, j + 1, seen);
        } else if !seen && (cs[j] == 'e' || cs[j] == 'E') {
            if j + 1 < cs.len() && (cs[j + 1] == '+' || cs[j + 1] == '-') {
                lemma_scan_number(cs, j + 2, true);
            } else {
                lemma_scan_number(cs, j + 1, true);
            }
        }
    }
}

proof fn lemma_scan_operators(cs: Seq<char>, j: int)
    requires
        0 <= j <= cs.len(),
    ensures
        j <= scan_operators(cs, j) <= cs.len(),
    decreases cs.len() - j,
{
    if j < cs.len() && is_expr_operator_spec(cs[j]) {
        lemma_scan_operators(cs, j + 1);
    }
}

proof fn lemma_expr_token_at(cs: Seq<char>, i: int)
    requires
        0 <= i < cs.len(),
    ensures
        i < expr_token_at(cs, i).1 <= cs.len(),
{
    lemma_scan_number(cs, i + 1, false);
    lemma_scan_run(cs, i + 1, Run::IdentTail);
    lemma_scan_operators(cs, i + 1);
}

/// Tokens of an expression from character `i` on; whitespace separates tokens.
pub open spec fn expr_spans(cs: Seq<char>, i: int) -> Seq<(ExprTokenKind, int, int)>
    decreases cs.len() - i,
{
    if i < 0 || i >= cs.len() {
        Seq::empty()
    } else if unicode_whitespace(cs[i]) {
        expr_spans(cs, i + 1)
    } else {
        let (k, e) = expr_token_at(cs, i);
        if e <= i || e > cs.len() {
            Seq::empty()
        } else {
            seq![(k, i, e)] + expr_spans(cs, e)
        }
    }
}

pub open spec fn expr_lex(cs: Seq<char>) -> Seq<ExprTok> {
    expr_spans(cs, 0).map_values(
        |sp: (ExprTokenKind, int, int)| ExprTok { kind: sp.0, text: cs.subrange(sp.1, sp.2) },
    )
}

fn scan_number_exec(cs: &[char], j: usize) -> (e: usize)
    requires
        j <= cs@.len(),
    ensures
        e == scan_number(cs@, j as int, false),
{
    let mut k = j;
    let mut seen = false;
    while k < cs.len()
        invariant
            j <= k <= cs@.len(),
            scan_number(cs@, k as int, seen) == scan_number(cs@, j as int, false),
        decreases cs@.len() - k,
    {
        let c = cs[k];
        if is_ascii_digit(c) || c == '.' || c == '_' {
            k = k + 1;
        } else if !seen && (c == 'e' || c == 'E') {
            seen = true;
            if k + 1 < cs.len() && (cs[k + 1] == '+' || cs[k + 1] == '-') {
                k = k + 2;
            } else {
                k = k + 1;
            }
        } else {
            return k;
        }
    }
    k
}

fn scan_operators_exec(cs: &[char], j: usize) -> (e: usize)
    requires
        j <= cs@.len(),
    ensures
        e == scan_operators(cs@, j as int),
{
    let mut k = j;
    while k < cs.len() && is_operator_char(cs[k])
        invariant
            j <= k <= cs@.len(),
            scan_operators(cs@, k as int) == scan_operators(cs@, j as int),
        decreases cs@.len() - k,
    {
        k = k + 1;
    }
    k
}

fn scan_word_exec(cs: &[char], j: usize) -> (e: usize)
    requires
        j <= cs@.len(),
    ensures
        e == scan_run(cs@, j as int, Run::IdentTail),
{
    let mut k = j;
    while k < cs.len() && is_word_continue(cs[k])
        invariant
            j <= k <= cs@.len(),
            scan_run(cs@, k as int, Run::IdentTail) == scan_run(cs@, j as int, Run::IdentTail),
        decreases cs@.len() - k,
    {
        k = k + 1;
    }
    k
}

fn lex(source: &[char]) -> (tokens: Vec<ExprToken>)
    ensures
        expr_tokens_view(tokens@) == expr_lex(source@),
{
    let ghost s = source@;
    let ghost f = |sp: (ExprTokenKind, int, int)| ExprTok { kind: sp.0, text: s.subrange(sp.1, sp.2) };
    let mut tokens: Vec<ExprToken> = Vec::new();
    let mut i: usize = 0;
    while i < source.len()
        invariant
            s == source@,
            i <= s.len(),
            f == (|sp: (ExprTokenKind, int, int)| ExprTok { kind: sp.0, text: s.subrange(sp.1, sp.2) }),
            expr_spans(s, 0).map_values(f) == expr_tokens_view(tokens@) + expr_spans(s, i as int).map_values(f),
        decreases s.len() - i,
    {
        let c = source[i];
        if is_whitespace(c) {
            i = i + 1;
        } else {
            proof {
                lemma_expr_token_at(s, i as int);
            }
            let (kind, e) = if c == '`' {
                (ExprTokenKind::Backtick, i + 1)
            } else if is_ascii_digit(c) {
                (ExprTokenKind::Number, scan_number_exec(source, i + 1))
            } else if is_word_start(c) {
                (ExprTokenKind::Word, scan_word_exec(source, i + 1))
            } else if is_operator_char(c) {
                (ExprTokenKind::Operator, scan_operators_exec(source, i + 1))
            } else if is_punctuation(c) {
                (ExprTokenKind::Punctuation, i + 1)
            } else {
                (ExprTokenKind::Word, i + 1)
            };
            assert(kind == expr_token_at(s, i as int).0 && e == expr_token_at(s, i as int).1);
            let mut text: Vec<char> = Vec::new();
            push_range(&mut text, source, i, e);
            let tok = ExprToken { kind, text };
            proof {
                let rest = expr_spans(s, e as int);
                assert(expr_spans(s, i as int) == seq![(kind, i as int, e as int)] + rest);
                assert(expr_spans(s, i as int).map_values(f) =~= seq![f((kind, i as int, e as int))] + rest.map_values(f));
                assert(tok.text@ =~= s.subrange(i as int, e as int));
                assert(expr_tokens_view(tokens@.push(tok)) =~= expr_tokens_view(tokens@).push(f((kind, i as int, e as int))));
            }
            tokens.push(tok);
            i = e;
        }
    }
    proof {
        assert(expr_spans(s, i as int) =~= Seq::<(ExprTokenKind, int, int)>::empty());
        assert(expr_tokens_view(tokens@) =~= expr_spans(s, 0).map_values(f));
    }
    tokens
}

} // verus!

verus! {

// ---------------------------------------------------------------------------
// Token helpers
// ---------------------------------------------------------------------------

pub open spec fn text_at(t: Seq<ExprTok>, p: int, lit: Seq<char>) -> bool {
    0 <= p < t.len() && t[p].text == lit
}

pub open spec fn kind_at(t: Seq<ExprTok>, p: int, k: ExprTokenKind) -> bool {
    0 <= p < t.len() && t[p].kind == k
}

/// Text of a word or number at `p` (an atom of a unit expression).
pub open spec fn atom_text_at(t: Seq<ExprTok>, p: int) -> Option<Seq<char>> {
    if kind_at(t, p, ExprTokenKind::Word) || kind_at(t, p, ExprTokenKind::Number) {
        Some(t[p].text)
    } else {
        None
    }
}

fn text_at_exec(toks: &[ExprToken], p: usize, lit: &str) -> (r: bool)
    ensures
        r == text_at(expr_tokens_view(toks@), p as int, lit@),
{
    if p < toks.len() {
        eq_lit(toks[p].text.as_slice(), lit)
    } else {
        false
    }
}

fn kind_at_exec(toks: &[ExprToken], p: usize, k: ExprTokenKind) -> (r: bool)
    ensures
        r == kind_at(expr_tokens_view(toks@), p as int, k),
{
    p < toks.len() && toks[p].kind == k
}

fn copy_chars(v: &Vec<char>) -> (r: Vec<char>)
    ensures
        r@ == v@,
{
    let mut out: Vec<char> = Vec::new();
    push_range(&mut out, v.as_slice(), 0, v.len());
    assert(v@.subrange(0, v@.len() as int) =~= v@);
    out
}

fn atom_text_exec(toks: &[ExprToken], p: usize) -> (r: Option<Vec<char>>)
    ensures
        match r {
            Some(v) => atom_text_at(expr_tokens_view(toks@), p as int) == Some(v@),
            None => atom_text_at(expr_tokens_view(toks@), p as int) is None,
        },
{
    if kind_at_exec(toks, p, ExprTokenKind::Word) || kind_at_exec(toks, p, ExprTokenKind::Number) {
        Some(copy_chars(&toks[p].text))
    } else {
        None
    }
}

// ---------------------------------------------------------------------------
// Unit parser
// ---------------------------------------------------------------------------

/// Unit factors of a unit expression, for products.
pub open spec fn product_factors(u: UnitView) -> Seq<UnitView> {
    match u {
        UnitView::Product(v) => v,
        UnitView::One => Seq::empty(),
        _ => seq![u],
    }
}

/// Product of two units, flattening nested products and dropping `One`.
pub open spec fn product_unit_spec(l: UnitView, r: UnitView) -> UnitView {
    let fs = product_factors(l) + product_factors(r);
    if fs.len() == 0 {
        UnitView::One
    } else if fs.len() == 1 {
        fs[0]
    } else {
        UnitView::Product(fs)
    }
}

/// Superscript exponent suffix of an atom: the base and the ASCII digits.
pub open spec fn split_superscript_suffix_spec(s: Seq<char>) -> Option<(Seq<char>, Seq<char>)> {
    let a = crate::units::superscript_start(s, s.len() as int);
    if a == s.len() || a == 0 {
        None
    } else {
        Some((s.subrange(0, a), crate::units::ascii_of_superscripts(s, a, s.len() as int)))
    }
}

/// A unit atom: `1`, a symbol with a superscript exponent, or a symbol.
pub open spec fn unit_of_atom(text: Seq<char>) -> UnitView {
    if text == "1"@ {
        UnitView::One
    } else {
        match split_superscript_suffix_spec(text) {
            Some((b, e)) => UnitView::Power { base: Box::new(UnitView::Symbol(b)), exponent: e },
            None => UnitView::Symbol(text),
        }
    }
}

pub open spec fn u_expr(t: Seq<ExprTok>, p: int) -> Option<(UnitView, int)>
    decreases t.len() - p, 4int,
{
    if p < 0 || p > t.len() {
        None
    } else {
        match u_power(t, p) {
            Some((u, p1)) => if p1 < p || p1 > t.len() {
                None
            } else {
                u_expr_rest(t, u, p1)
            },
            None => None,
        }
    }
}

pub open spec fn u_expr_rest(t: Seq<ExprTok>, acc: UnitView, p: int) -> Option<(UnitView, int)>
    decreases t.len() - p, 3int,
{
    if p < 0 || p > t.len() {
        None
    } else if text_at(t, p, "*"@) {
        match u_power(t, p + 1) {
            Some((r, p2)) => if p2 <= p || p2 > t.len() {
                None
            } else {
                u_expr_rest(t, product_unit_spec(acc, r), p2)
            },
            None => None,
        }
    } else if text_at(t, p, "/"@) {
        match u_power(t, p + 1) {
            Some((r, p2)) => if p2 <= p || p2 > t.len() {
                None
            } else {
                u_expr_rest(
                    t,
                    UnitView::Quotient { numerator: Box::new(acc), denominator: Box::new(r) },
                    p2,
                )
            },
            None => None,
        }
    } else {
        Some((acc, p))
    }
}

pub open spec fn u_power(t: Seq<ExprTok>, p: int) -> Option<(UnitView, int)>
    decreases t.len() - p, 2int,
{
    if p < 0 || p > t.len() {
        None
    } else {
        match u_atom(t, p) {
            Some((u, p1)) => if text_at(t, p1, "^"@) {
                match atom_text_at(t, p1 + 1) {
                    Some(x) => Some((UnitView::Power { base: Box::new(u), exponent: x }, p1 + 2)),
                    None => None,
                }
            } else {
                Some((u, p1))
            },
            None => None,
        }
    }
}

pub open spec fn u_atom(t: Seq<ExprTok>, p: int) -> Option<(UnitView, int)>
    decreases t.len() - p, 1int,
{
    if p < 0 || p > t.len() {
        None
    } else if text_at(t, p, "("@) {
        match u_expr(t, p + 1) {
            Some((u, p1)) => if text_at(t, p1, ")"@) {
                Some((u, p1 + 1))
            } else {
                None
            },
            None => None,
        }
    } else if text_at(t, p, "`"@) {
        match atom_text_at(t, p + 1) {
            Some(x) => Some((UnitView::Symbol(x), p + 2)),
            None => None,
        }
    } else {
        match atom_text_at(t, p) {
            Some(x) => Some((unit_of_atom(x), p + 1)),
            None => None,
        }
    }
}

/// What `parse_unit_expression_text` gives for a text: `One` when it is
/// blank, the parsed unit when the whole text parses, else the text without
/// whitespace as a raw unit.
pub open spec fn parse_unit_spec(text: Seq<char>) -> UnitView {
    let tr = trim(text);
    if tr.len() == 0 {
        UnitView::One
    } else {
        let toks = expr_lex(tr);
        match u_expr(toks, 0) {
            Some((u, p)) => if p == toks.len() {
                u
            } else {
                UnitView::Raw(remove_whitespace(tr))
            },
            None => UnitView::Raw(remove_whitespace(tr)),
        }
    }
}

fn product_unit(left: UnitExpression, right: UnitExpression) -> (r: UnitExpression)
    ensures
        unit_view(r) == product_unit_spec(unit_view(left), unit_view(right)),
{
    let ghost lv = unit_view(left);
    let ghost rv = unit_view(right);
    let mut factors: Vec<UnitExpression> = Vec::new();
    match left {
        UnitExpression::Product(existing) => {
            factors = existing;
        },
        UnitExpression::One => {},
        other => {
            factors.push(other);
        },
    }
    proof {
        lemma_units_view(factors@);
        assert(units_view(factors@) =~= product_factors(lv));
    }
    let ghost mid = units_view(factors@);
    match right {
        UnitExpression::Product(existing) => {
            let mut ex = existing;
            let ghost exv = units_view(ex@);
            proof {
                lemma_units_view(ex@);
                lemma_units_view(factors@);
            }
            let ghost f0 = factors@;
            factors.append(&mut ex);
            proof {
                lemma_units_view(factors@);
                assert(units_view(factors@) =~= mid + exv);
            }
        },
        UnitExpression::One => {},
        other => {
            let ghost ov = unit_view(other);
            proof {
                lemma_units_view_push(factors@, other);
            }
            factors.push(other);
        },
    }
    proof {
        lemma_units_view(factors@);
        assert(units_view(factors@) =~= product_factors(lv) + product_factors(rv));
    }
    if factors.len() == 0 {
        UnitExpression::One
    } else if factors.len() == 1 {
        factors.pop().unwrap()
    } else {
        UnitExpression::Product(factors)
    }
}

fn superscript_split(text: &Vec<char>) -> (r: Option<(Vec<char>, Vec<char>)>)
    ensures
        match r {
            Some((b, e)) => split_superscript_suffix_spec(text@) == Some((b@, e@)),
            None => split_superscript_suffix_spec(text@) is None,
        },
{
    let (a, digits) = crate::units::superscript_suffix(text.as_slice(), text.len());
    proof {
        crate::units::lemma_superscript_start(text@, text@.len() as int);
    }
    if a == text.len() || a == 0 {
        return None;
    }
    let mut base: Vec<char> = Vec::new();
    push_range(&mut base, text.as_slice(), 0, a);
    assert(base@ =~= text@.subrange(0, a as int));
    Some((base, digits))
}

fn unit_from_atom(text: Vec<char>) -> (r: UnitExpression)
    ensures
        unit_view(r) == unit_of_atom(text@),
{
    if eq_lit(text.as_slice(), "1") {
        return UnitExpression::One;
    }
    match superscript_split(&text) {
        Some((base, exponent)) => {
            let b = UnitExpression::Symbol(string_from_chars(base.as_slice()));
            assert(unit_view(b) == UnitView::Symbol(base@));
            UnitExpression::Power {
                base: Box::new(b),
                exponent: string_from_chars(exponent.as_slice()),
            }
        },
        None => UnitExpression::Symbol(string_from_chars(text.as_slice())),
    }
}

pub open spec fn unit_result(r: Option<(UnitExpression, usize)>) -> Option<(UnitView, int)> {
    match r {
        Some((u, q)) => Some((unit_view(u), q as int)),
        None => None,
    }
}

fn parse_unit_expression(toks: &[ExprToken], p: usize) -> (r: Option<(UnitExpression, usize)>)
    requires
        p <= toks@.len(),
    ensures
        unit_result(r) == u_expr(expr_tokens_view(toks@), p as int),
        r matches Some((_, q)) ==> p <= q <= toks@.len(),
    decreases toks@.len() - p, 4int,
{
    let n = toks.len();
    let ghost t = expr_tokens_view(toks@);
    let (mut unit, mut pos) = match parse_unit_power(toks, p) {
        Some(x) => x,
        None => return None,
    };
    while pos < toks.len()
        invariant
            t == expr_tokens_view(toks@),
            t.len() == toks@.len(),
            toks@.len() <= usize::MAX,
            p <= pos <= toks@.len(),
            u_expr(t, p as int) == u_expr_rest(t, unit_view(unit), pos as int),
        decreases toks@.len() - pos,
    {
        if text_at_exec(toks, pos, "*") {
            let (right, p2) = match parse_unit_power(toks, pos + 1) {
                Some(x) => x,
                None => return None,
            };
            unit = product_unit(unit, right);
            pos = p2;
        } else if text_at_exec(toks, pos, "/") {
            let (denominator, p2) = match parse_unit_power(toks, pos + 1) {
                Some(x) => x,
                None => return None,
            };
            unit = UnitExpression::Quotient {
                numerator: Box::new(unit),
                denominator: Box::new(denominator),
            };
            pos = p2;
        } else {
            return Some((unit, pos));
        }
    }
    Some((unit, pos))
}

fn parse_unit_power(toks: &[ExprToken], p: usize) -> (r: Option<(UnitExpression, usize)>)
    requires
        p <= toks@.len(),
    ensures
        unit_result(r) == u_power(expr_tokens_view(toks@), p as int),
        r matches Some((_, q)) ==> p <= q <= toks@.len(),
    decreases toks@.len() - p, 2int,
{
    let n = toks.len();
    let (unit, p1) = match parse_unit_atom(toks, p) {
        Some(x) => x,
        None => return None,
    };
    if text_at_exec(toks, p1, "^") {
        match atom_text_exec(toks, p1 + 1) {
            Some(x) => Some(
                (
                    UnitExpression::Power {
                        base: Box::new(unit),
                        exponent: string_from_chars(x.as_slice()),
                    },
                    p1 + 2,
                ),
            ),
            None => None,
        }
    } else {
        Some((unit, p1))
    }
}

fn parse_unit_atom(toks: &[ExprToken], p: usize) -> (r: Option<(UnitExpression, usize)>)
    requires
        p <= toks@.len(),
    ensures
        unit_result(r) == u_atom(expr_tokens_view(toks@), p as int),
        r matches Some((_, q)) ==> p <= q <= toks@.len(),
    decreases toks@.len() - p, 1int,
{
    let n = toks.len();
    if text_at_exec(toks, p, "(") {
        let (unit, p1) = match parse_unit_expression(toks, p + 1) {
            Some(x) => x,
            None => return None,
        };
        if text_at_exec(toks, p1, ")") {
            return Some((unit, p1 + 1));
        }
        return None;
    }
    if text_at_exec(toks, p, "`") {
        return match atom_text_exec(toks, p + 1) {
            Some(x) => Some((UnitExpression::Symbol(string_from_chars(x.as_slice())), p + 2)),
            None => None,
        };
    }
    match atom_text_exec(toks, p) {
        Some(x) => Some((unit_from_atom(x), p + 1)),
        None => None,
    }
}

/// Parses a unit expression. Returns `UnitExpression::Raw` for unsupported units.
pub fn parse_unit_expression_text(text: &str) -> (r: UnitExpression)
    ensures
        unit_view(r) == parse_unit_spec(text@),
{
    let cs = chars_of(text);
    parse_unit_chars(cs.as_slice())
}

pub(crate) fn parse_unit_chars(text: &[char]) -> (r: UnitExpression)
    ensures
        unit_view(r) == parse_unit_spec(text@),
{
    let trimmed = trim_chars(text);
    if trimmed.len() == 0 {
        return UnitExpression::One;
    }
    let tokens = lex(trimmed.as_slice());
    match parse_unit_expression(tokens.as_slice(), 0) {
        Some((unit, p)) => {
            if p == tokens.len() {
                return unit;
            }
        },
        None => {},
    }
    let norm = remove_whitespace_chars(trimmed.as_slice());
    UnitExpression::Raw(string_from_chars(norm.as_slice()))
}

} // verus!

verus! {

// ---------------------------------------------------------------------------
// Expression parser
// ---------------------------------------------------------------------------

pub open spec fn word_at(t: Seq<ExprTok>, p: int) -> Option<Seq<char>> {
    if kind_at(t, p, ExprTokenKind::Word) {
        Some(t[p].text)
    } else {
        None
    }
}

pub open spec fn number_at(t: Seq<ExprTok>, p: int) -> Option<Seq<char>> {
    if kind_at(t, p, ExprTokenKind::Number) {
        Some(t[p].text)
    } else {
        None
    }
}

pub open spec fn direction_at(t: Seq<ExprTok>, p: int) -> Option<PortDirection> {
    if text_at(t, p, "provided"@) {
        Some(PortDirection::Provides)
    } else if text_at(t, p, "required"@) {
        Some(PortDirection::Requires)
    } else {
        None
    }
}

/// An instance selector: `*` (all instances) or an optional word.
pub open spec fn instance_selector(t: Seq<ExprTok>, p: int) -> (Option<Seq<char>>, int) {
    if text_at(t, p, "*"@) {
        (None, p + 1)
    } else {
        match word_at(t, p) {
            Some(w) => (Some(w), p + 1),
            None => (None, p),
        }
    }
}

pub open spec fn is_unit_atom_at(t: Seq<ExprTok>, p: int) -> bool {
    (kind_at(t, p, ExprTokenKind::Word) || kind_at(t, p, ExprTokenKind::Number)) && !(t[p].text
        == "provided"@ || t[p].text == "required"@ || t[p].text == "by"@ || t[p].text == "sum"@
        || t[p].text == "constant"@)
}

/// End of a unit attached to a number: atoms joined by `^`, `*` or `/`.
pub open spec fn unit_run_end(t: Seq<ExprTok>, q: int) -> int
    decreases t.len() - q,
{
    if 0 <= q < t.len() && (text_at(t, q, "^"@) || text_at(t, q, "*"@) || text_at(t, q, "/"@))
        && is_unit_atom_at(t, q + 1) {
        unit_run_end(t, q + 2)
    } else {
        q
    }
}

/// Index of the `]` that closes a bracket, given the nesting depth before `i`.
pub open spec fn bracket_close(t: Seq<ExprTok>, i: int, depth: nat) -> Option<int>
    decreases t.len() - i,
{
    if i < 0 || i >= t.len() {
        None
    } else if text_at(t, i, "["@) {
        bracket_close(t, i + 1, depth + 1)
    } else if text_at(t, i, "]"@) {
        let d = crate::syntax::dec(depth);
        if d == 0 {
            Some(i)
        } else {
            bracket_close(t, i + 1, d)
        }
    } else {
        bracket_close(t, i + 1, depth)
    }
}

pub open spec fn expr_texts(t: Seq<ExprTok>) -> Seq<char>
    decreases t.len(),
{
    if t.len() == 0 {
        Seq::empty()
    } else {
        expr_texts(t.drop_last()) + t.last().text
    }
}

/// Text of tokens `[a, b)` with whitespace removed.
pub open spec fn units_text(t: Seq<ExprTok>, a: int, b: int) -> Seq<char> {
    remove_whitespace(expr_texts(t.subrange(a, b)))
}

/// The unit attached to a number at `p`: a bracketed unit, a run of unit
/// atoms, or none; and where parsing continues. An unclosed bracket makes
/// the whole source text a raw unit and ends the input.
pub open spec fn attached_unit(t: Seq<ExprTok>, src: Seq<char>, p: int) -> (Option<UnitView>, int) {
    if text_at(t, p, "["@) {
        match bracket_close(t, p + 1, 1) {
            Some(c) => (Some(parse_unit_spec(units_text(t, p + 1, c))), c + 1),
            None => (Some(UnitView::Raw(src)), t.len() as int),
        }
    } else if is_unit_atom_at(t, p) {
        let e = unit_run_end(t, p + 1);
        (Some(parse_unit_spec(units_text(t, p, e))), e)
    } else {
        (None, p)
    }
}

pub open spec fn binary(op: BinaryOperator, l: ExprView, r: ExprView) -> ExprView {
    ExprView::Binary { operator: op, left: Box::new(l), right: Box::new(r) }
}

pub open spec fn p_expr(t: Seq<ExprTok>, src: Seq<char>, p: int) -> Option<(ExprView, int)>
    decreases t.len() - p, 9int,
{
    if p < 0 || p > t.len() {
        None
    } else {
        p_add(t, src, p)
    }
}

pub open spec fn p_add(t: Seq<ExprTok>, src: Seq<char>, p: int) -> Option<(ExprView, int)>
    decreases t.len() - p, 8int,
{
    if p < 0 || p > t.len() {
        None
    } else {
        match p_mul(t, src, p) {
            Some((e, p1)) => if p1 < p || p1 > t.len() {
                None
            } else {
                p_add_rest(t, src, e, p1)
            },
            None => None,
        }
    }
}

pub open spec fn p_add_rest(t: Seq<ExprTok>, src: Seq<char>, acc: ExprView, p: int) -> Option<
    (ExprView, int),
>
    decreases t.len() - p, 7int,
{
    if p < 0 || p > t.len() {
        None
    } else {
        let op = if text_at(t, p, "+"@) {
            Some(BinaryOperator::Add)
        } else if text_at(t, p, "-"@) {
            Some(BinaryOperator::Sub)
        } else {
            None
        };
        match op {
            Some(o) => match p_mul(t, src, p + 1) {
                Some((r, p2)) => if p2 <= p || p2 > t.len() {
                    None
                } else {
                    p_add_rest(t, src, binary(o, acc, r), p2)
                },
                None => None,
            },
            None => Some((acc, p)),
        }
    }
}

pub open spec fn p_mul(t: Seq<ExprTok>, src: Seq<char>, p: int) -> Option<(ExprView, int)>
    decreases t.len() - p, 6int,
{
    if p < 0 || p > t.len() {
        None
    } else {
        match p_unary(t, src, p) {
            Some((e, p1)) => if p1 < p || p1 > t.len() {
                None
            } else {
                p_mul_rest(t, src, e, p1)
            },
            None => None,
        }
    }
}

pub open spec fn p_mul_rest(t: Seq<ExprTok>, src: Seq<char>, acc: ExprView, p: int) -> Option<
    (ExprView, int),
>
    decreases t.len() - p, 5int,
{
    if p < 0 || p > t.len() {
        None
    } else {
        let op = if text_at(t, p, "*"@) || text_at(t, p, "·"@) {
            Some(BinaryOperator::Mul)
        } else if text_at(t, p, "/"@) {
            Some(BinaryOperator::Div)
        } else {
            None
        };
        match op {
            Some(o) => match p_unary(t, src, p + 1) {
                Some((r, p2)) => if p2 <= p || p2 > t.len() {
                    None
                } else {
                    p_mul_rest(t, src, binary(o, acc, r), p2)
                },
                None => None,
            },
            None => Some((acc, p)),
        }
    }
}

pub open spec fn p_unary(t: Seq<ExprTok>, src: Seq<char>, p: int) -> Option<(ExprView, int)>
    decreases t.len() - p, 4int,
{
    if p < 0 || p > t.len() {
        None
    } else if text_at(t, p, "-"@) {
        match p_unary(t, src, p + 1) {
            Some((e, p2)) => Some(
                (ExprView::Unary { operator: UnaryOperator::Neg, operand: Box::new(e) }, p2),
            ),
            None => None,
        }
    } else {
        p_postfix(t, src, p)
    }
}

pub open spec fn p_postfix(t: Seq<ExprTok>, src: Seq<char>, p: int) -> Option<(ExprView, int)>
    decreases t.len() - p, 3int,
{
    if p < 0 || p > t.len() {
        None
    } else {
        match p_primary(t, src, p) {
            Some((e, p1)) => if p1 < p || p1 > t.len() {
                None
            } else {
                p_postfix_rest(t, src, e, p1)
            },
            None => None,
        }
    }
}

pub open spec fn p_postfix_rest(t: Seq<ExprTok>, src: Seq<char>, acc: ExprView, p: int) -> Option<
    (ExprView, int),
>
    decreases t.len() - p, 2int,
{
    if p < 0 || p > t.len() {
        None
    } else if text_at(t, p, "."@) {
        match word_at(t, p + 1) {
            Some(f) => p_postfix_rest(
                t,
                src,
                ExprView::FieldAccess { base: Box::new(acc), field: f },
                p + 2,
            ),
            None => None,
        }
    } else {
        Some((acc, p))
    }
}

pub open spec fn p_primary(t: Seq<ExprTok>, src: Seq<char>, p: int) -> Option<(ExprView, int)>
    decreases t.len() - p, 2int,
{
    if p < 0 || p > t.len() {
        None
    } else if text_at(t, p, "("@) {
        match p_expr(t, src, p + 1) {
            Some((e, p1)) => if text_at(t, p1, ")"@) {
                Some((e, p1 + 1))
            } else {
                None
            },
            None => None,
        }
    } else if text_at(t, p, "⟨"@) {
        p_tuple(t, src, p + 1)
    } else if text_at(t, p, "`"@) {
        p_symbol(t, p + 1)
    } else if text_at(t, p, "provided"@) || text_at(t, p, "required"@) {
        p_prefix_port(t, p)
    } else if text_at(t, p, "sum"@) {
        p_aggregate(t, p)
    } else if kind_at(t, p, ExprTokenKind::Number) {
        p_quantity(t, src, p)
    } else {
        p_word_primary(t, src, p)
    }
}

pub open spec fn p_tuple(t: Seq<ExprTok>, src: Seq<char>, p: int) -> Option<(ExprView, int)>
    decreases t.len() - p, 11int,
{
    if p < 0 || p > t.len() {
        None
    } else if text_at(t, p, "⟩"@) {
        Some((ExprView::Literal(LiteralView::Tuple(Seq::empty())), p + 1))
    } else {
        p_tuple_elems(t, src, p, Seq::empty())
    }
}

pub open spec fn p_tuple_elems(t: Seq<ExprTok>, src: Seq<char>, p: int, acc: Seq<ExprView>) -> Option<
    (ExprView, int),
>
    decreases t.len() - p, 10int,
{
    if p < 0 || p > t.len() {
        None
    } else {
        match p_expr(t, src, p) {
            Some((e, p1)) => if p1 < p || p1 > t.len() {
                None
            } else if text_at(t, p1, "⟩"@) {
                Some((ExprView::Literal(LiteralView::Tuple(acc.push(e))), p1 + 1))
            } else if text_at(t, p1, ","@) {
                p_tuple_elems(t, src, p1 + 1, acc.push(e))
            } else {
                None
            },
            None => None,
        }
    }
}

pub open spec fn p_symbol(t: Seq<ExprTok>, p: int) -> Option<(ExprView, int)> {
    match word_at(t, p) {
        Some(first) => if text_at(t, p + 1, ":"@) {
            match word_at(t, p + 2) {
                Some(value) => Some(
                    (ExprView::Literal(LiteralView::Symbol { poset: Some(first), value }), p + 3),
                ),
                None => None,
            }
        } else {
            Some((ExprView::Literal(LiteralView::Symbol { poset: None, value: first }), p + 1))
        },
        None => None,
    }
}

pub open spec fn p_prefix_port(t: Seq<ExprTok>, p: int) -> Option<(ExprView, int)> {
    match direction_at(t, p) {
        Some(direction) => match word_at(t, p + 1) {
            Some(port) => {
                let (instance, q) = if text_at(t, p + 2, "by"@) {
                    instance_selector(t, p + 3)
                } else {
                    (None, p + 2)
                };
                Some((ExprView::Port(PortRefView { direction, port, instance }), q))
            },
            None => None,
        },
        None => None,
    }
}

pub open spec fn p_aggregate(t: Seq<ExprTok>, p: int) -> Option<(ExprView, int)> {
    if !text_at(t, p, "sum"@) {
        None
    } else {
        match word_at(t, p + 1) {
            Some(port) => match direction_at(t, p + 2) {
                Some(direction) => if text_at(t, p + 3, "by"@) {
                    let (instance, q) = instance_selector(t, p + 4);
                    Some(
                        (
                            ExprView::Aggregate(
                                AggregateView {
                                    operator: AggregateOperator::Sum,
                                    port,
                                    direction,
                                    instance,
                                },
                            ),
                            q,
                        ),
                    )
                } else {
                    None
                },
                None => None,
            },
            None => None,
        }
    }
}

pub open spec fn p_quantity(t: Seq<ExprTok>, src: Seq<char>, p: int) -> Option<(ExprView, int)> {
    match number_at(t, p) {
        Some(magnitude) => {
            let (unit, q) = attached_unit(t, src, p + 1);
            Some((ExprView::Literal(LiteralView::Quantity { magnitude, unit }), q))
        },
        None => None,
    }
}

pub open spec fn p_word_primary(t: Seq<ExprTok>, src: Seq<char>, p: int) -> Option<(ExprView, int)>
    decreases t.len() - p, 1int,
{
    if p < 0 || p > t.len() {
        None
    } else {
        match word_at(t, p) {
            Some(name) => if name == "true"@ {
                Some((ExprView::Literal(LiteralView::Bool(true)), p + 1))
            } else if name == "false"@ {
                Some((ExprView::Literal(LiteralView::Bool(false)), p + 1))
            } else if text_at(t, p + 1, "("@) {
                p_call(t, src, name, p + 2)
            } else if text_at(t, p + 1, "provided"@) || text_at(t, p + 1, "required"@) {
                if text_at(t, p + 2, "by"@) {
                    let direction = direction_at(t, p + 1).unwrap();
                    let (instance, q) = instance_selector(t, p + 3);
                    Some((ExprView::Port(PortRefView { direction, port: name, instance }), q))
                } else {
                    None
                }
            } else {
                Some((ExprView::Name(name), p + 1))
            },
            None => None,
        }
    }
}

pub open spec fn p_call(t: Seq<ExprTok>, src: Seq<char>, f: Seq<char>, p: int) -> Option<
    (ExprView, int),
>
    decreases t.len() - p, 11int,
{
    if p < 0 || p > t.len() {
        None
    } else if text_at(t, p, ")"@) {
        Some((ExprView::Call { function: f, arguments: Seq::empty() }, p + 1))
    } else {
        p_call_args(t, src, f, p, Seq::empty())
    }
}

pub open spec fn p_call_args(
    t: Seq<ExprTok>,
    src: Seq<char>,
    f: Seq<char>,
    p: int,
    acc: Seq<ExprView>,
) -> Option<(ExprView, int)>
    decreases t.len() - p, 10int,
{
    if p < 0 || p > t.len() {
        None
    } else {
        match p_expr(t, src, p) {
            Some((e, p1)) => if p1 < p || p1 > t.len() {
                None
            } else if text_at(t, p1, ")"@) {
                Some((ExprView::Call { function: f, arguments: acc.push(e) }, p1 + 1))
            } else if text_at(t, p1, ","@) {
                p_call_args(t, src, f, p1 + 1, acc.push(e))
            } else {
                None
            },
            None => None,
        }
    }
}

/// What `parse_expression_text` gives for a text: the parsed expression when
/// the whole trimmed text parses, else the trimmed text as a raw expression.
pub open spec fn parse_expression_spec(text: Seq<char>) -> ExprView {
    let tr = trim(text);
    if tr.len() == 0 {
        ExprView::Raw(Seq::empty())
    } else {
        let toks = expr_lex(tr);
        match p_expr(toks, tr, 0) {
            Some((e, p)) => if p == toks.len() {
                e
            } else {
                ExprView::Raw(tr)
            },
            None => ExprView::Raw(tr),
        }
    }
}

/// A parse result that is not a raw fallback.
pub open spec fn parsed_not_raw(r: Option<(ExprView, int)>) -> bool {
    r matches Some((e, _)) ==> !(e is Raw)
}

proof fn lemma_expr_not_raw(t: Seq<ExprTok>, src: Seq<char>, p: int)
    ensures
        parsed_not_raw(p_expr(t, src, p)),
    decreases t.len() - p, 9int,
{
    if 0 <= p <= t.len() {
        lemma_add_not_raw(t, src, p);
    }
}

proof fn lemma_add_not_raw(t: Seq<ExprTok>, src: Seq<char>, p: int)
    ensures
        parsed_not_raw(p_add(t, src, p)),
    decreases t.len() - p, 8int,
{
    if 0 <= p <= t.len() {
        lemma_mul_not_raw(t, src, p);
        match p_mul(t, src, p) {
            Some((e, p1)) => if p <= p1 <= t.len() {
                lemma_add_rest_not_raw(t, src, e, p1);
            },
            None => {},
        }
    }
}

proof fn lemma_add_rest_not_raw(t: Seq<ExprTok>, src: Seq<char>, acc: ExprView, p: int)
    requires
        !(acc is Raw),
    ensures
        parsed_not_raw(p_add_rest(t, src, acc, p)),
    decreases t.len() - p, 7int,
{
    if 0 <= p <= t.len() {
        let op = if text_at(t, p, "+"@) {
            Some(BinaryOperator::Add)
        } else if text_at(t, p, "-"@) {
            Some(BinaryOperator::Sub)
        } else {
            None
        };
        match op {
            Some(o) => match p_mul(t, src, p + 1) {
                Some((r, p2)) => if p < p2 <= t.len() {
                    lemma_add_rest_not_raw(t, src, binary(o, acc, r), p2);
                },
                None => {},
            },
            None => {},
        }
    }
}

proof fn lemma_mul_not_raw(t: Seq<ExprTok>, src: Seq<char>, p: int)
    ensures
        parsed_not_raw(p_mul(t, src, p)),
    decreases t.len() - p, 6int,
{
    if 0 <= p <= t.len() {
        lemma_unary_not_raw(t, src, p);
        match p_unary(t, src, p) {
            Some((e, p1)) => if p <= p1 <= t.len() {
                lemma_mul_rest_not_raw(t, src, e, p1);
            },
            None => {},
        }
    }
}

proof fn lemma_mul_rest_not_raw(t: Seq<ExprTok>, src: Seq<char>, acc: ExprView, p: int)
    requires
        !(acc is Raw),
    ensures
        parsed_not_raw(p_mul_rest(t, src, acc, p)),
    decreases t.len() - p, 5int,
{
    if 0 <= p <= t.len() {
        let op = if text_at(t, p, "*"@) || text_at(t, p, "·"@) {
            Some(BinaryOperator::Mul)
        } else if text_at(t, p, "/"@) {
            Some(BinaryOperator::Div)
        } else {
            None
        };
        match op {
            Some(o) => match p_unary(t, src, p + 1) {
                Some((r, p2)) => if p < p2 <= t.len() {
                    lemma_mul_rest_not_raw(t, src, binary(o, acc, r), p2);
                },
                None => {},
            },
            None => {},
        }
    }
}

proof fn lemma_unary_not_raw(t: Seq<ExprTok>, src: Seq<char>, p: int)
    ensures
        parsed_not_raw(p_unary(t, src, p)),
    decreases t.len() - p, 4int,
{
    if 0 <= p <= t.len() && !text_at(t, p, "-"@) {
        lemma_postfix_not_raw(t, src, p);
    }
}

proof fn lemma_postfix_not_raw(t: Seq<ExprTok>, src: Seq<char>, p: int)
    ensures
        parsed_not_raw(p_postfix(t, src, p)),
    decreases t.len() - p, 3int,
{
    if 0 <= p <= t.len() {
        lemma_primary_not_raw(t, src, p);
        match p_primary(t, src, p) {
            Some((e, p1)) => if p <= p1 <= t.len() {
                lemma_postfix_rest_not_raw(t, src, e, p1);
            },
            None => {},
        }
    }
}

proof fn lemma_postfix_rest_not_raw(t: Seq<ExprTok>, src: Seq<char>, acc: ExprView, p: int)
    requires
        !(acc is Raw),
    ensures
        parsed_not_raw(p_postfix_rest(t, src, acc, p)),
    decreases t.len() - p, 2int,
{
    if 0 <= p <= t.len() && text_at(t, p, "."@) {
        match word_at(t, p + 1) {
            Some(f) => {
                lemma_postfix_rest_not_raw(t, src, ExprView::FieldAccess { base: Box::new(acc), field: f }, p + 2);
            },
            None => {},
        }
    }
}

proof fn lemma_primary_not_raw(t: Seq<ExprTok>, src: Seq<char>, p: int)
    ensures
        parsed_not_raw(p_primary(t, src, p)),
    decreases t.len() - p, 2int,
{
    if 0 <= p <= t.len() {
        if text_at(t, p, "("@) {
            lemma_expr_not_raw(t, src, p + 1);
        } else if text_at(t, p, "⟨"@) {
            if p + 1 <= t.len() && !text_at(t, p + 1, "⟩"@) {
                lemma_tuple_elems_not_raw(t, src, p + 1, Seq::empty());
            }
        } else if !(text_at(t, p, "`"@) || text_at(t, p, "provided"@) || text_at(t, p, "required"@) || text_at(
            t,
            p,
            "sum"@,
        ) || kind_at(t, p, ExprTokenKind::Number)) {
            match word_at(t, p) {
                Some(name) => {
                    if !(name == "true"@ || name == "false"@) && text_at(t, p + 1, "("@) {
                        if p + 2 <= t.len() && !text_at(t, p + 2, ")"@) {
                            lemma_call_args_not_raw(t, src, name, p + 2, Seq::empty());
                        }
                    }
                },
                None => {},
            }
        }
    }
}

proof fn lemma_tuple_elems_not_raw(t: Seq<ExprTok>, src: Seq<char>, p: int, acc: Seq<ExprView>)
    ensures
        parsed_not_raw(p_tuple_elems(t, src, p, acc)),
    decreases t.len() - p,
{
    if 0 <= p <= t.len() {
        match p_expr(t, src, p) {
            Some((e, p1)) => if p <= p1 <= t.len() && !text_at(t, p1, "⟩"@) && text_at(t, p1, ","@) {
                lemma_tuple_elems_not_raw(t, src, p1 + 1, acc.push(e));
            },
            None => {},
        }
    }
}

proof fn lemma_call_args_not_raw(t: Seq<ExprTok>, src: Seq<char>, f: Seq<char>, p: int, acc: Seq<ExprView>)
    ensures
        parsed_not_raw(p_call_args(t, src, f, p, acc)),
    decreases t.len() - p,
{
    if 0 <= p <= t.len() {
        match p_expr(t, src, p) {
            Some((e, p1)) => if p <= p1 <= t.len() && !text_at(t, p1, ")"@) && text_at(t, p1, ","@) {
                lemma_call_args_not_raw(t, src, f, p1 + 1, acc.push(e));
            },
            None => {},
        }
    }
}

/// A text that does not parse as an expression becomes the raw text,
/// trimmed, and a blank text an empty raw one: a raw result always holds
/// the trimmed text, and parsing a text is parsing its trimmed text.
pub proof fn unparsed_expressions_keep_their_trimmed_text(text: Seq<char>)
    ensures
        trim(text).len() == 0 ==> parse_expression_spec(text) == ExprView::Raw(Seq::empty()),
        parse_expression_spec(text) matches ExprView::Raw(s) ==> s == trim(text),
        parse_expression_spec(text) == parse_expression_spec(trim(text)),
{
    let tr = trim(text);
    if tr.len() > 0 {
        lemma_expr_not_raw(expr_lex(tr), tr, 0);
    }
    crate::text::lemma_trim_idempotent(text);
}

} // verus!

verus! {

pub open spec fn expr_result(r: Option<(Expression, usize)>) -> Option<(ExprView, int)> {
    match r {
        Some((e, q)) => Some((expr_view(e), q as int)),
        None => None,
    }
}

/// One unfolding of the views of a literal expression.
proof fn lemma_literal_view(l: LiteralExpression)
    ensures
        expr_view(Expression::Literal(l)) == ExprView::Literal(literal_view(l)),
        l matches LiteralExpression::Bool(b) ==> literal_view(l) == LiteralView::Bool(b),
        l matches LiteralExpression::Quantity(q) ==> literal_view(l) == (LiteralView::Quantity {
            magnitude: q.magnitude@,
            unit: opt_unit_view(q.unit),
        }),
        l matches LiteralExpression::Symbol { poset, value } ==> literal_view(l) == (
        LiteralView::Symbol { poset: opt_text(poset), value: value@ }),
        l matches LiteralExpression::Tuple(v) ==> literal_view(l) == LiteralView::Tuple(
            exprs_view(v@),
        ),
{
}

/// A copy of a unit expression.
pub fn copy_unit(u: &UnitExpression) -> (r: UnitExpression)
    ensures
        unit_view(r) == unit_view(*u),
    decreases u,
{
    match u {
        UnitExpression::One => UnitExpression::One,
        UnitExpression::Symbol(s) => UnitExpression::Symbol(s.clone()),
        UnitExpression::Product(v) => {
            let mut out: Vec<UnitExpression> = Vec::new();
            let mut i: usize = 0;
            proof {
                lemma_units_view(out@);
                assert(units_view(out@) =~= units_view(v@).take(0));
            }
            while i < v.len()
                invariant
                    i <= v@.len(),
                    *u is Product,
                    u->Product_0 == *v,
                    units_view(out@) == units_view(v@).take(i as int),
                decreases v@.len() - i,
            {
                proof {
                    lemma_units_view(v@);
                    assert(decreases_to!(*u => v@));
                    assert(decreases_to!(v@ => v@[i as int]));
                }
                let c = copy_unit(&v[i]);
                proof {
                    lemma_units_view_push(out@, c);
                    assert(units_view(v@).take(i + 1) =~= units_view(v@).take(i as int).push(
                        unit_view(v@[i as int]),
                    ));
                }
                out.push(c);
                i = i + 1;
            }
            proof {
                lemma_units_view(v@);
                assert(units_view(v@).take(v@.len() as int) =~= units_view(v@));
            }
            UnitExpression::Product(out)
        },
        UnitExpression::Quotient { numerator, denominator } => UnitExpression::Quotient {
            numerator: Box::new(copy_unit(numerator)),
            denominator: Box::new(copy_unit(denominator)),
        },
        UnitExpression::Power { base, exponent } => UnitExpression::Power {
            base: Box::new(copy_unit(base)),
            exponent: exponent.clone(),
        },
        UnitExpression::Raw(s) => UnitExpression::Raw(s.clone()),
    }
}


fn word_at_exec(toks: &[ExprToken], p: usize) -> (r: Option<Vec<char>>)
    ensures
        match r {
            Some(v) => word_at(expr_tokens_view(toks@), p as int) == Some(v@),
            None => word_at(expr_tokens_view(toks@), p as int) is None,
        },
{
    if kind_at_exec(toks, p, ExprTokenKind::Word) {
        Some(copy_chars(&toks[p].text))
    } else {
        None
    }
}

fn consume_direction(toks: &[ExprToken], p: usize) -> (r: Option<PortDirection>)
    ensures
        r == direction_at(expr_tokens_view(toks@), p as int),
{
    if text_at_exec(toks, p, "provided") {
        Some(PortDirection::Provides)
    } else if text_at_exec(toks, p, "required") {
        Some(PortDirection::Requires)
    } else {
        None
    }
}

fn consume_instance_selector(toks: &[ExprToken], p: usize) -> (r: (Option<String>, usize))
    requires
        p <= toks@.len(),
    ensures
        opt_text(r.0) == instance_selector(expr_tokens_view(toks@), p as int).0,
        r.1 as int == instance_selector(expr_tokens_view(toks@), p as int).1,
        p <= r.1 <= toks@.len(),
{
    let n = toks.len();
    if text_at_exec(toks, p, "*") {
        return (None, p + 1);
    }
    match word_at_exec(toks, p) {
        Some(w) => (Some(string_from_chars(w.as_slice())), p + 1),
        None => (None, p),
    }
}

fn peek_offset_is_unit_atom(toks: &[ExprToken], p: usize) -> (r: bool)
    ensures
        r == is_unit_atom_at(expr_tokens_view(toks@), p as int),
{
    if p >= toks.len() {
        return false;
    }
    let t = toks[p].text.as_slice();
    (toks[p].kind == ExprTokenKind::Word || toks[p].kind == ExprTokenKind::Number) && !(eq_lit(
        t,
        "provided",
    ) || eq_lit(t, "required") || eq_lit(t, "by") || eq_lit(t, "sum") || eq_lit(t, "constant"))
}

fn units_text_exec(toks: &[ExprToken], a: usize, b: usize) -> (r: Vec<char>)
    requires
        a <= b <= toks@.len(),
    ensures
        r@ == units_text(expr_tokens_view(toks@), a as int, b as int),
{
    let ghost t = expr_tokens_view(toks@);
    let n = toks.len();
    let mut out: Vec<char> = Vec::new();
    let mut i = a;
    while i < b
        invariant
            a <= i <= b <= toks@.len(),
            t == expr_tokens_view(toks@),
            t.len() == toks@.len(),
            toks@.len() <= usize::MAX,
            out@ == expr_texts(t.subrange(a as int, i as int)),
        decreases b - i,
    {
        push_range(&mut out, toks[i].text.as_slice(), 0, toks[i].text.len());
        proof {
            assert(toks@[i as int].text@.subrange(0, toks@[i as int].text@.len() as int) =~= toks@[i as int].text@);
            assert(t.subrange(a as int, i + 1).drop_last() =~= t.subrange(a as int, i as int));
        }
        i = i + 1;
    }
    remove_whitespace_chars(out.as_slice())
}

fn consume_attached_unit(toks: &[ExprToken], src: &[char], p: usize) -> (r: (Option<UnitExpression>, usize))
    requires
        p <= toks@.len(),
    ensures
        opt_unit_view(r.0) == attached_unit(expr_tokens_view(toks@), src@, p as int).0,
        r.1 as int == attached_unit(expr_tokens_view(toks@), src@, p as int).1,
        p <= r.1 <= toks@.len(),
{
    let ghost t = expr_tokens_view(toks@);
    let n = toks.len();
    if text_at_exec(toks, p, "[") {
        let start = p + 1;
        let mut depth: usize = 1;
        let mut pos = start;
        while pos < toks.len()
            invariant
                t == expr_tokens_view(toks@),
                t.len() == toks@.len(),
                toks@.len() <= usize::MAX,
                p < toks@.len(),
                text_at(t, p as int, "["@),
                start == p + 1,
                start <= pos <= toks@.len(),
                1 <= depth <= pos - start + 1,
                bracket_close(t, start as int, 1) == bracket_close(t, pos as int, depth as nat),
            decreases toks@.len() - pos,
        {
            if text_at_exec(toks, pos, "[") {
                depth = depth + 1;
            } else if text_at_exec(toks, pos, "]") {
                depth = depth - 1;
                if depth == 0 {
                    let text = units_text_exec(toks, start, pos);
                    let u = parse_unit_chars(text.as_slice());
                    return (Some(u), pos + 1);
                }
            }
            pos = pos + 1;
        }
        let mut raw: Vec<char> = Vec::new();
        push_range(&mut raw, src, 0, src.len());
        assert(raw@ =~= src@);
        return (Some(UnitExpression::Raw(string_from_chars(raw.as_slice()))), toks.len());
    }
    if !peek_offset_is_unit_atom(toks, p) {
        return (None, p);
    }
    let mut end = p + 1;
    while end < toks.len() && (text_at_exec(toks, end, "^") || text_at_exec(toks, end, "*")
        || text_at_exec(toks, end, "/")) && peek_offset_is_unit_atom(toks, end + 1)
        invariant
            t == expr_tokens_view(toks@),
            t.len() == toks@.len(),
            toks@.len() <= usize::MAX,
            p + 1 <= end <= toks@.len(),
            unit_run_end(t, p + 1) == unit_run_end(t, end as int),
        decreases toks@.len() - end,
    {
        end = end + 2;
    }
    let text = units_text_exec(toks, p, end);
    (Some(parse_unit_chars(text.as_slice())), end)
}

fn parse_expression(toks: &[ExprToken], src: &[char], p: usize) -> (r: Option<(Expression, usize)>)
    requires
        p <= toks@.len(),
    ensures
        expr_result(r) == p_expr(expr_tokens_view(toks@), src@, p as int),
        r matches Some((_, q)) ==> p <= q <= toks@.len(),
    decreases toks@.len() - p, 9int,
{
    parse_additive(toks, src, p)
}

fn parse_additive(toks: &[ExprToken], src: &[char], p: usize) -> (r: Option<(Expression, usize)>)
    requires
        p <= toks@.len(),
    ensures
        expr_result(r) == p_add(expr_tokens_view(toks@), src@, p as int),
        r matches Some((_, q)) ==> p <= q <= toks@.len(),
    decreases toks@.len() - p, 8int,
{
    let ghost t = expr_tokens_view(toks@);
    let n = toks.len();
    let (mut expression, mut pos) = match parse_multiplicative(toks, src, p) {
        Some(x) => x,
        None => return None,
    };
    loop
        invariant
            t == expr_tokens_view(toks@),
            t.len() == toks@.len(),
            toks@.len() <= usize::MAX,
            p <= pos <= toks@.len(),
            p_add(t, src@, p as int) == p_add_rest(t, src@, expr_view(expression), pos as int),
        decreases toks@.len() - pos,
    {
        let operator = if text_at_exec(toks, pos, "+") {
            BinaryOperator::Add
        } else if text_at_exec(toks, pos, "-") {
            BinaryOperator::Sub
        } else {
            return Some((expression, pos));
        };
        let (right, p2) = match parse_multiplicative(toks, src, pos + 1) {
            Some(x) => x,
            None => return None,
        };
        expression = Expression::Binary {
            operator,
            left: Box::new(expression),
            right: Box::new(right),
        };
        pos = p2;
    }
}

fn parse_multiplicative(toks: &[ExprToken], src: &[char], p: usize) -> (r: Option<(Expression, usize)>)
    requires
        p <= toks@.len(),
    ensures
        expr_result(r) == p_mul(expr_tokens_view(toks@), src@, p as int),
        r matches Some((_, q)) ==> p <= q <= toks@.len(),
    decreases toks@.len() - p, 6int,
{
    let ghost t = expr_tokens_view(toks@);
    let n = toks.len();
    let (mut expression, mut pos) = match parse_unary(toks, src, p) {
        Some(x) => x,
        None => return None,
    };
    loop
        invariant
            t == expr_tokens_view(toks@),
            t.len() == toks@.len(),
            toks@.len() <= usize::MAX,
            p <= pos <= toks@.len(),
            p_mul(t, src@, p as int) == p_mul_rest(t, src@, expr_view(expression), pos as int),
        decreases toks@.len() - pos,
    {
        let operator = if text_at_exec(toks, pos, "*") || text_at_exec(toks, pos, "·") {
            BinaryOperator::Mul
        } else if text_at_exec(toks, pos, "/") {
            BinaryOperator::Div
        } else {
            return Some((expression, pos));
        };
        let (right, p2) = match parse_unary(toks, src, pos + 1) {
            Some(x) => x,
            None => return None,
        };
        expression = Expression::Binary {
            operator,
            left: Box::new(expression),
            right: Box::new(right),
        };
        pos = p2;
    }
}

fn parse_unary(toks: &[ExprToken], src: &[char], p: usize) -> (r: Option<(Expression, usize)>)
    requires
        p <= toks@.len(),
    ensures
        expr_result(r) == p_unary(expr_tokens_view(toks@), src@, p as int),
        r matches Some((_, q)) ==> p <= q <= toks@.len(),
    decreases toks@.len() - p, 4int,
{
    let n = toks.len();
    if text_at_exec(toks, p, "-") {
        let (operand, p2) = match parse_unary(toks, src, p + 1) {
            Some(x) => x,
            None => return None,
        };
        return Some(
            (Expression::Unary { operator: UnaryOperator::Neg, operand: Box::new(operand) }, p2),
        );
    }
    parse_postfix(toks, src, p)
}

fn parse_postfix(toks: &[ExprToken], src: &[char], p: usize) -> (r: Option<(Expression, usize)>)
    requires
        p <= toks@.len(),
    ensures
        expr_result(r) == p_postfix(expr_tokens_view(toks@), src@, p as int),
        r matches Some((_, q)) ==> p <= q <= toks@.len(),
    decreases toks@.len() - p, 3int,
{
    let ghost t = expr_tokens_view(toks@);
    let n = toks.len();
    let (mut expression, mut pos) = match parse_primary(toks, src, p) {
        Some(x) => x,
        None => return None,
    };
    loop
        invariant
            t == expr_tokens_view(toks@),
            t.len() == toks@.len(),
            toks@.len() <= usize::MAX,
            p <= pos <= toks@.len(),
            p_postfix(t, src@, p as int) == p_postfix_rest(t, src@, expr_view(expression), pos as int),
        decreases toks@.len() - pos,
    {
        if !text_at_exec(toks, pos, ".") {
            return Some((expression, pos));
        }
        let field = match word_at_exec(toks, pos + 1) {
            Some(w) => w,
            None => return None,
        };
        expression = Expression::FieldAccess {
            base: Box::new(expression),
            field: string_from_chars(field.as_slice()),
        };
        pos = pos + 2;
    }
}

fn parse_primary(toks: &[ExprToken], src: &[char], p: usize) -> (r: Option<(Expression, usize)>)
    requires
        p <= toks@.len(),
    ensures
        expr_result(r) == p_primary(expr_tokens_view(toks@), src@, p as int),
        r matches Some((_, q)) ==> p <= q <= toks@.len(),
    decreases toks@.len() - p, 2int,
{
    let n = toks.len();
    if text_at_exec(toks, p, "(") {
        let (expression, p1) = match parse_expression(toks, src, p + 1) {
            Some(x) => x,
            None => return None,
        };
        if text_at_exec(toks, p1, ")") {
            return Some((expression, p1 + 1));
        }
        return None;
    }
    if text_at_exec(toks, p, "⟨") {
        return parse_tuple(toks, src, p + 1);
    }
    if text_at_exec(toks, p, "`") {
        return parse_symbol_literal(toks, p + 1);
    }
    if text_at_exec(toks, p, "provided") || text_at_exec(toks, p, "required") {
        return parse_prefix_port_reference(toks, p);
    }
    if text_at_exec(toks, p, "sum") {
        return parse_aggregate(toks, p);
    }
    if kind_at_exec(toks, p, ExprTokenKind::Number) {
        return parse_quantity(toks, src, p);
    }
    parse_word_primary(toks, src, p)
}

fn parse_tuple(toks: &[ExprToken], src: &[char], p: usize) -> (r: Option<(Expression, usize)>)
    requires
        p <= toks@.len(),
    ensures
        expr_result(r) == p_tuple(expr_tokens_view(toks@), src@, p as int),
        r matches Some((_, q)) ==> p <= q <= toks@.len(),
    decreases toks@.len() - p, 11int,
{
    let ghost t = expr_tokens_view(toks@);
    let n = toks.len();
    let mut elements: Vec<Expression> = Vec::new();
    if text_at_exec(toks, p, "⟩") {
        let lit = LiteralExpression::Tuple(elements);
        proof {
            lemma_exprs_view(lit->Tuple_0@);
            lemma_literal_view(lit);
        }
        return Some((Expression::Literal(lit), p + 1));
    }
    let mut pos = p;
    proof {
        lemma_exprs_view(elements@);
        assert(exprs_view(elements@) =~= Seq::<ExprView>::empty());
    }
    loop
        invariant
            t == expr_tokens_view(toks@),
            t.len() == toks@.len(),
            toks@.len() <= usize::MAX,
            p <= pos <= toks@.len(),
            p_tuple(t, src@, p as int) == p_tuple_elems(t, src@, pos as int, exprs_view(elements@)),
        decreases toks@.len() - pos,
    {
        let (e, p1) = match parse_expression(toks, src, pos) {
            Some(x) => x,
            None => return None,
        };
        proof {
            lemma_exprs_view_push(elements@, e);
        }
        elements.push(e);
        if text_at_exec(toks, p1, "⟩") {
            let lit = LiteralExpression::Tuple(elements);
            proof {
                lemma_literal_view(lit);
            }
            return Some((Expression::Literal(lit), p1 + 1));
        }
        if !text_at_exec(toks, p1, ",") {
            return None;
        }
        pos = p1 + 1;
    }
}

fn parse_symbol_literal(toks: &[ExprToken], p: usize) -> (r: Option<(Expression, usize)>)
    requires
        p <= toks@.len(),
    ensures
        expr_result(r) == p_symbol(expr_tokens_view(toks@), p as int),
        r matches Some((_, q)) ==> p <= q <= toks@.len(),
{
    let n = toks.len();
    let first = match word_at_exec(toks, p) {
        Some(w) => w,
        None => return None,
    };
    if text_at_exec(toks, p + 1, ":") {
        let value = match word_at_exec(toks, p + 2) {
            Some(w) => w,
            None => return None,
        };
        let lit = LiteralExpression::Symbol {
            poset: Some(string_from_chars(first.as_slice())),
            value: string_from_chars(value.as_slice()),
        };
        proof {
            lemma_literal_view(lit);
        }
        return Some((Expression::Literal(lit), p + 3));
    }
    let lit = LiteralExpression::Symbol { poset: None, value: string_from_chars(first.as_slice()) };
    proof {
        lemma_literal_view(lit);
    }
    Some((Expression::Literal(lit), p + 1))
}

fn parse_prefix_port_reference(toks: &[ExprToken], p: usize) -> (r: Option<(Expression, usize)>)
    requires
        p <= toks@.len(),
    ensures
        expr_result(r) == p_prefix_port(expr_tokens_view(toks@), p as int),
        r matches Some((_, q)) ==> p <= q <= toks@.len(),
{
    let n = toks.len();
    let direction = match consume_direction(toks, p) {
        Some(d) => d,
        None => return None,
    };
    let port = match word_at_exec(toks, p + 1) {
        Some(w) => w,
        None => return None,
    };
    let (instance, q) = if text_at_exec(toks, p + 2, "by") {
        consume_instance_selector(toks, p + 3)
    } else {
        (None, p + 2)
    };
    Some(
        (
            Expression::Port(
                PortReference::new(direction, string_from_chars(port.as_slice()), instance),
            ),
            q,
        ),
    )
}

fn parse_aggregate(toks: &[ExprToken], p: usize) -> (r: Option<(Expression, usize)>)
    requires
        p <= toks@.len(),
    ensures
        expr_result(r) == p_aggregate(expr_tokens_view(toks@), p as int),
        r matches Some((_, q)) ==> p <= q <= toks@.len(),
{
    let n = toks.len();
    if !text_at_exec(toks, p, "sum") {
        return None;
    }
    let port = match word_at_exec(toks, p + 1) {
        Some(w) => w,
        None => return None,
    };
    let direction = match consume_direction(toks, p + 2) {
        Some(d) => d,
        None => return None,
    };
    if !text_at_exec(toks, p + 3, "by") {
        return None;
    }
    let (instance, q) = consume_instance_selector(toks, p + 4);
    Some(
        (
            Expression::Aggregate(
                AggregateExpression {
                    operator: AggregateOperator::Sum,
                    port: string_from_chars(port.as_slice()),
                    direction,
                    instance,
                },
            ),
            q,
        ),
    )
}

fn parse_quantity(toks: &[ExprToken], src: &[char], p: usize) -> (r: Option<(Expression, usize)>)
    requires
        p <= toks@.len(),
    ensures
        expr_result(r) == p_quantity(expr_tokens_view(toks@), src@, p as int),
        r matches Some((_, q)) ==> p <= q <= toks@.len(),
{
    let n = toks.len();
    if !kind_at_exec(toks, p, ExprTokenKind::Number) {
        return None;
    }
    let magnitude = string_from_chars(toks[p].text.as_slice());
    let (unit, q) = consume_attached_unit(toks, src, p + 1);
    let lit = LiteralExpression::Quantity(QuantityLiteral::new(magnitude, unit));
    proof {
        lemma_literal_view(lit);
    }
    Some((Expression::Literal(lit), q))
}

fn parse_word_primary(toks: &[ExprToken], src: &[char], p: usize) -> (r: Option<(Expression, usize)>)
    requires
        p <= toks@.len(),
    ensures
        expr_result(r) == p_word_primary(expr_tokens_view(toks@), src@, p as int),
        r matches Some((_, q)) ==> p <= q <= toks@.len(),
    decreases toks@.len() - p, 1int,
{
    let n = toks.len();
    let name = match word_at_exec(toks, p) {
        Some(w) => w,
        None => return None,
    };
    if eq_lit(name.as_slice(), "true") {
        proof {
            lemma_literal_view(LiteralExpression::Bool(true));
        }
        return Some((Expression::Literal(LiteralExpression::Bool(true)), p + 1));
    }
    if eq_lit(name.as_slice(), "false") {
        proof {
            lemma_literal_view(LiteralExpression::Bool(false));
        }
        return Some((Expression::Literal(LiteralExpression::Bool(false)), p + 1));
    }
    if text_at_exec(toks, p + 1, "(") {
        return parse_call(toks, src, string_from_chars(name.as_slice()), p + 2);
    }
    if text_at_exec(toks, p + 1, "provided") || text_at_exec(toks, p + 1, "required") {
        let direction = match consume_direction(toks, p + 1) {
            Some(d) => d,
            None => return None,
        };
        if !text_at_exec(toks, p + 2, "by") {
            return None;
        }
        let (instance, q) = consume_instance_selector(toks, p + 3);
        return Some(
            (
                Expression::Port(
                    PortReference::new(direction, string_from_chars(name.as_slice()), instance),
                ),
                q,
            ),
        );
    }
    Some((Expression::Name(string_from_chars(name.as_slice())), p + 1))
}

fn parse_call(toks: &[ExprToken], src: &[char], function: String, p: usize) -> (r: Option<(Expression, usize)>)
    requires
        p <= toks@.len(),
    ensures
        expr_result(r) == p_call(expr_tokens_view(toks@), src@, function@, p as int),
        r matches Some((_, q)) ==> p <= q <= toks@.len(),
    decreases toks@.len() - p, 11int,
{
    let ghost t = expr_tokens_view(toks@);
    let n = toks.len();
    let mut arguments: Vec<Expression> = Vec::new();
    proof {
        lemma_exprs_view(arguments@);
        assert(exprs_view(arguments@) =~= Seq::<ExprView>::empty());
    }
    if text_at_exec(toks, p, ")") {
        return Some((Expression::Call { function, arguments }, p + 1));
    }
    let mut pos = p;
    loop
        invariant
            t == expr_tokens_view(toks@),
            t.len() == toks@.len(),
            toks@.len() <= usize::MAX,
            p <= pos <= toks@.len(),
            p_call(t, src@, function@, p as int) == p_call_args(t, src@, function@, pos as int, exprs_view(arguments@)),
        decreases toks@.len() - pos,
    {
        let (e, p1) = match parse_expression(toks, src, pos) {
            Some(x) => x,
            None => return None,
        };
        proof {
            lemma_exprs_view_push(arguments@, e);
        }
        arguments.push(e);
        if text_at_exec(toks, p1, ")") {
            return Some((Expression::Call { function, arguments }, p1 + 1));
        }
        if !text_at_exec(toks, p1, ",") {
            return None;
        }
        pos = p1 + 1;
    }
}

/// Parses an expression. Returns `Expression::Raw` when the text is outside the
/// supported subset.
pub fn parse_expression_text(text: &str) -> (r: Expression)
    ensures
        expr_view(r) == parse_expression_spec(text@),
{
    let cs = chars_of(text);
    parse_expression_chars(cs.as_slice())
}

/// The expressions of a comma-separated list.
pub open spec fn expression_list_spec(text: Seq<char>) -> Seq<ExprView> {
    split_top_level_spec(text, ',', false).map_values(|p: Seq<char>| parse_expression_spec(p))
}

/// Parses a comma-separated list of expressions: each top-level part, trimmed,
/// goes through `parse_expression_text`; a blank last part is dropped.
pub fn parse_expression_list_text(text: &str) -> (r: Vec<Expression>)
    ensures
        exprs_view(r@) == expression_list_spec(text@),
{
    let cs = chars_of(text);
    let parts = split_top_level(cs.as_slice(), ',', false);
    let ghost ps = strings_view(parts@);
    let mut out: Vec<Expression> = Vec::new();
    let mut k: usize = 0;
    while k < parts.len()
        invariant
            k <= parts@.len(),
            ps == strings_view(parts@),
            exprs_view(out@) == ps.take(k as int).map_values(|p: Seq<char>| parse_expression_spec(p)),
        decreases parts@.len() - k,
    {
        let e = parse_expression_text(parts[k].as_str());
        proof {
            lemma_exprs_view_push(out@, e);
            assert(ps.take(k + 1).map_values(|p: Seq<char>| parse_expression_spec(p)) =~= ps.take(
                k as int,
            ).map_values(|p: Seq<char>| parse_expression_spec(p)).push(expr_view(e)));
        }
        out.push(e);
        k = k + 1;
    }
    proof {
        assert(ps.take(parts@.len() as int) =~= ps);
    }
    out
}

fn parse_expression_chars(text: &[char]) -> (r: Expression)
    ensures
        expr_view(r) == parse_expression_spec(text@),
{
    let trimmed = trim_chars(text);
    if trimmed.len() == 0 {
        let empty = String::new();
        return Expression::Raw(empty);
    }
    let tokens = lex(trimmed.as_slice());
    match parse_expression(tokens.as_slice(), trimmed.as_slice(), 0) {
        Some((expression, p)) => {
            if p == tokens.len() {
                return expression;
            }
        },
        None => {},
    }
    Expression::Raw(string_from_chars(trimmed.as_slice()))
}

} // verus!
