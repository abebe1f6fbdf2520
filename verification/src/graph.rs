use vstd::prelude::*;
use crate::annotation::{Annotation, Identifier};
use crate::span::Span;
use crate::types::Type;
use crate::diagnostics::EvaluationError;

verus! {

/// An integer value with its width and sign.
#[derive(Clone, Copy, Debug, PartialEq, Eq, Structural)]
pub enum ConstInt {
    I8(i8),
    I16(i16),
    I32(i32),
    I64(i64),
    I128(i128),
    U8(u8),
    U16(u16),
    U32(u32),
    U64(u64),
    U128(u128),
}

/// A value that compile-time evaluation can hand back. The passes carry
/// values and never look into them, so a value that is no integer, boolean
/// or character (a field or group element, an address, a tuple, an array,
/// a circuit) is held by the number under which the evaluator keeps it.
#[derive(Clone, Copy, Debug, PartialEq, Eq, Structural)]
pub enum ConstValue {
    Int(ConstInt),
    Boolean(bool),
    Char(u32),
    Kept(u64),
}

/// What compile-time evaluation of an expression gives.
#[derive(Clone, Copy, Debug, PartialEq, Eq, Structural)]
pub enum Evaluation {
    Value(ConstValue),
    NotConstant,
    Failed(EvaluationError),
}

/// Names a node of the graph. A node refers to its parent by this name and
/// does not own it.
#[derive(Clone, Copy, Debug, PartialEq, Eq, Structural)]
pub struct NodeId(pub u32);

/// What an expression other than a constant does with its operands.
#[derive(Clone, Copy, Debug, PartialEq, Eq, Structural)]
pub enum OperationKind {
    ArrayAccess,
    ArrayInit,
    ArrayInline,
    ArrayRangeAccess,
    Binary,
    Call,
    Cast,
    CircuitAccess,
    CircuitInit,
    Ternary,
    TupleAccess,
    TupleInit,
    Unary,
    VariableRef,
}

/// A leaf that holds an evaluated value.
#[derive(Debug)]
pub struct Constant {
    pub parent: Option<NodeId>,
    pub span: Option<Span>,
    pub value: ConstValue,
}

/// An expression with operands, which come in the order of evaluation.
/// `outcome` is what compile-time evaluation of the whole expression gives;
/// whoever builds the graph asks the evaluator and records the answer here.
#[derive(Debug)]
pub struct Operation {
    pub parent: Option<NodeId>,
    pub span: Option<Span>,
    pub kind: OperationKind,
    pub outcome: Evaluation,
    pub operands: Vec<Expression>,
}

/// An expression: a constant, or an operation on other expressions.
#[derive(Debug)]
pub enum Expression {
    Constant(Constant),
    Operation(Operation),
}

/// An expression as a mathematical tree.
pub enum ExpressionView {
    Constant { parent: Option<NodeId>, span: Option<Span>, value: ConstValue },
    Operation {
        parent: Option<NodeId>,
        span: Option<Span>,
        kind: OperationKind,
        outcome: Evaluation,
        operands: Seq<ExpressionView>,
    },
}

/// What an expression is, its operands taken as a sequence.
pub open spec fn expression_model(e: Expression) -> ExpressionView
    decreases e, 0nat,
{
    match e {
        Expression::Constant(c) => ExpressionView::Constant {
            parent: c.parent,
            span: c.span,
            value: c.value,
        },
        Expression::Operation(o) => ExpressionView::Operation {
            parent: o.parent,
            span: o.span,
            kind: o.kind,
            outcome: o.outcome,
            operands: expression_views_upto(o.operands@, o.operands@.len()),
        },
    }
}

/// The views of the first `n` expressions of a list, in order.
pub open spec fn expression_views_upto(es: Seq<Expression>, n: nat) -> Seq<ExpressionView>
    decreases es, n,
{
    if n == 0 || n > es.len() {
        Seq::empty()
    } else {
        expression_views_upto(es, (n - 1) as nat).push(expression_model(es[n - 1]))
    }
}

impl View for Expression {
    type V = ExpressionView;

    open spec fn view(&self) -> ExpressionView {
        expression_model(*self)
    }
}

/// The views of a list of expressions, in order.
pub open spec fn expression_views(es: Seq<Expression>) -> Seq<ExpressionView> {
    expression_views_upto(es, es.len())
}

/// The views of the first `n` expressions are `n`, each the view of the
/// expression in its place.
proof fn lemma_expression_views_upto(es: Seq<Expression>, n: nat)
    requires
        n <= es.len(),
    ensures
        expression_views_upto(es, n).len() == n,
        forall|j: int| 0 <= j < n ==> expression_views_upto(es, n)[j] == (#[trigger] es[j])@,
    decreases n,
{
    if n > 0 {
        lemma_expression_views_upto(es, (n - 1) as nat);
    }
}

/// The views of a list are as many as the list holds, each the view of
/// the expression in its place.
pub proof fn lemma_expression_views(es: Seq<Expression>)
    ensures
        expression_views(es).len() == es.len(),
        forall|j: int| 0 <= j < es.len() ==> (#[trigger] expression_views(es)[j]) == es[j]@,
{
    lemma_expression_views_upto(es, es.len());
}

/// What compile-time evaluation of the expression gives: a constant
/// evaluates to its own value, any other expression to its recorded outcome.
pub open spec fn const_value(e: ExpressionView) -> Evaluation {
    match e {
        ExpressionView::Constant { value, .. } => Evaluation::Value(value),
        ExpressionView::Operation { outcome, .. } => outcome,
    }
}

/// The node that the expression hangs under.
pub open spec fn parent_of(e: ExpressionView) -> Option<NodeId> {
    match e {
        ExpressionView::Constant { parent, .. } => parent,
        ExpressionView::Operation { parent, .. } => parent,
    }
}

/// The source region of the expression.
pub open spec fn span_of(e: ExpressionView) -> Option<Span> {
    match e {
        ExpressionView::Constant { span, .. } => span,
        ExpressionView::Operation { span, .. } => span,
    }
}

impl Expression {
    /// What compile-time evaluation of the expression gives.
    pub fn const_value(&self) -> (r: Evaluation)
        ensures
            r == const_value(self@),
    {
        match self {
            Expression::Constant(c) => Evaluation::Value(c.value),
            Expression::Operation(o) => o.outcome,
        }
    }

    /// The node that the expression hangs under.
    pub fn get_parent(&self) -> (r: Option<NodeId>)
        ensures
            r == parent_of(self@),
    {
        match self {
            Expression::Constant(c) => c.parent,
            Expression::Operation(o) => o.parent,
        }
    }

    /// The source region of the expression.
    pub fn span(&self) -> (r: Option<Span>)
        ensures
            r == span_of(self@),
    {
        match self {
            Expression::Constant(c) => c.span,
            Expression::Operation(o) => o.span,
        }
    }
}

/// What a statement does.
#[derive(Clone, Copy, Debug, PartialEq, Eq, Structural)]
pub enum StatementKind {
    Assign,
    Block,
    Conditional,
    Console,
    Definition,
    Expression,
    Iteration,
    Return,
    Empty,
}

/// A statement: the expressions it evaluates, in order, and then the
/// statements nested in it, in order.
#[derive(Debug)]
pub struct Statement {
    pub parent: Option<NodeId>,
    pub span: Option<Span>,
    pub kind: StatementKind,
    pub expressions: Vec<Expression>,
    pub statements: Vec<Statement>,
}

/// A statement as a mathematical tree.
pub struct StatementView {
    pub parent: Option<NodeId>,
    pub span: Option<Span>,
    pub kind: StatementKind,
    pub expressions: Seq<ExpressionView>,
    pub statements: Seq<StatementView>,
}

/// What a statement is, its expressions and statements taken as sequences.
pub open spec fn statement_model(s: Statement) -> StatementView
    decreases s, 0nat,
{
    StatementView {
        parent: s.parent,
        span: s.span,
        kind: s.kind,
        expressions: expression_views(s.expressions@),
        statements: statement_views_upto(s.statements@, s.statements@.len()),
    }
}

/// The views of the first `n` statements of a list, in order.
pub open spec fn statement_views_upto(ss: Seq<Statement>, n: nat) -> Seq<StatementView>
    decreases ss, n,
{
    if n == 0 || n > ss.len() {
        Seq::empty()
    } else {
        statement_views_upto(ss, (n - 1) as nat).push(statement_model(ss[n - 1]))
    }
}

impl View for Statement {
    type V = StatementView;

    open spec fn view(&self) -> StatementView {
        statement_model(*self)
    }
}

/// The views of a list of statements, in order.
pub open spec fn statement_views(ss: Seq<Statement>) -> Seq<StatementView> {
    statement_views_upto(ss, ss.len())
}

/// The views of the first `n` statements are `n`, each the view of the
/// statement in its place.
proof fn lemma_statement_views_upto(ss: Seq<Statement>, n: nat)
    requires
        n <= ss.len(),
    ensures
        statement_views_upto(ss, n).len() == n,
        forall|j: int| 0 <= j < n ==> statement_views_upto(ss, n)[j] == (#[trigger] ss[j])@,
    decreases n,
{
    if n > 0 {
        lemma_statement_views_upto(ss, (n - 1) as nat);
    }
}

/// The views of a list are as many as the list holds, each the view of
/// the statement in its place.
pub proof fn lemma_statement_views(ss: Seq<Statement>)
    ensures
        statement_views(ss).len() == ss.len(),
        forall|j: int| 0 <= j < ss.len() ==> (#[trigger] statement_views(ss)[j]) == ss[j]@,
{
    lemma_statement_views_upto(ss, ss.len());
}

/// A named, typed parameter of a function.
#[derive(Debug)]
pub struct Argument {
    pub name: Identifier,
    pub type_: Type,
}

/// A function: its declaration, its body where one is attached, and what
/// the passes have worked out about it.
#[derive(Debug)]
pub struct Function {
    pub name: Identifier,
    pub span: Option<Span>,
    pub arguments: Vec<Argument>,
    pub output: Type,
    pub annotations: Vec<Annotation>,
    pub body: Option<Statement>,
    /// The intrinsic that the function is bound to.
    pub core_mapping: Option<String>,
    /// Whether the function's result must be a compile-time constant.
    pub always_const: bool,
}

/// A function with its body and core mapping as mathematical values.
pub struct FunctionView {
    pub name: Identifier,
    pub span: Option<Span>,
    pub arguments: Vec<Argument>,
    pub output: Type,
    pub annotations: Vec<Annotation>,
    pub body: Option<StatementView>,
    pub core_mapping: Option<Seq<char>>,
    pub always_const: bool,
}

impl View for Function {
    type V = FunctionView;

    open spec fn view(&self) -> FunctionView {
        FunctionView {
            name: self.name,
            span: self.span,
            arguments: self.arguments,
            output: self.output,
            annotations: self.annotations,
            body: match self.body {
                Some(b) => Some(b@),
                None => None,
            },
            core_mapping: match self.core_mapping {
                Some(m) => Some(m@),
                None => None,
            },
            always_const: self.always_const,
        }
    }
}

/// The views of a list of functions, in order.
pub open spec fn function_views(fs: Seq<Function>) -> Seq<FunctionView> {
    Seq::new(fs.len(), |i: int| fs[i]@)
}

/// A member of a circuit: a variable of some type, or a function.
#[derive(Debug)]
pub enum CircuitMember {
    Variable(Identifier, Type),
    Function(Function),
}

/// A member of a circuit, a function among them as a mathematical value.
pub enum CircuitMemberView {
    Variable(Identifier, Type),
    Function(FunctionView),
}

impl View for CircuitMember {
    type V = CircuitMemberView;

    open spec fn view(&self) -> CircuitMemberView {
        match self {
            CircuitMember::Variable(name, type_) => CircuitMemberView::Variable(*name, *type_),
            CircuitMember::Function(f) => CircuitMemberView::Function(f@),
        }
    }
}

/// The views of a list of circuit members, in order.
pub open spec fn member_views(ms: Seq<CircuitMember>) -> Seq<CircuitMemberView> {
    Seq::new(ms.len(), |i: int| ms[i]@)
}

/// An aggregate type with named members.
#[derive(Debug)]
pub struct Circuit {
    pub name: Identifier,
    pub span: Option<Span>,
    pub annotations: Vec<Annotation>,
    pub members: Vec<CircuitMember>,
}

/// A circuit with its members as a sequence of mathematical values.
pub struct CircuitView {
    pub name: Identifier,
    pub span: Option<Span>,
    pub annotations: Vec<Annotation>,
    pub members: Seq<CircuitMemberView>,
}

impl View for Circuit {
    type V = CircuitView;

    open spec fn view(&self) -> CircuitView {
        CircuitView {
            name: self.name,
            span: self.span,
            annotations: self.annotations,
            members: member_views(self.members@),
        }
    }
}

/// The views of a list of circuits, in order.
pub open spec fn circuit_views(cs: Seq<Circuit>) -> Seq<CircuitView> {
    Seq::new(cs.len(), |i: int| cs[i]@)
}

/// A program: its functions and its circuits, each list in source order.
#[derive(Debug)]
pub struct Program {
    pub name: String,
    pub functions: Vec<Function>,
    pub circuits: Vec<Circuit>,
}

/// A program with its functions and circuits as sequences of
/// mathematical values.
pub struct ProgramView {
    pub name: Seq<char>,
    pub functions: Seq<FunctionView>,
    pub circuits: Seq<CircuitView>,
}

impl View for Program {
    type V = ProgramView;

    open spec fn view(&self) -> ProgramView {
        ProgramView {
            name: self.name@,
            functions: function_views(self.functions@),
            circuits: circuit_views(self.circuits@),
        }
    }
}

} // verus!
