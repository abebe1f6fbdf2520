use vstd::prelude::*;
use crate::diagnostics::{Diagnostic, DiagnosticSink, FatalError};
use crate::graph::{
    const_value, parent_of, span_of, Circuit, CircuitMemberView, CircuitView, ConstValue,
    Constant, Evaluation, Expression, ExpressionView, Function, FunctionView, Program,
    ProgramView, Statement, StatementView,
};
use crate::visitor::{
    walk_circuit, walk_circuits, walk_expression, walk_expressions, walk_function,
    walk_functions, walk_member, walk_members, walk_program, walk_statement, walk_statements,
    VisitResult, Visitor, VisitorDirector,
};

verus! {

/// The constant that takes the place of an expression with a known value:
/// it keeps the expression's parent and span.
pub open spec fn constant_for(e: ExpressionView, value: ConstValue) -> ExpressionView {
    ExpressionView::Constant { parent: parent_of(e), span: span_of(e), value }
}

/// What folding does at one expression, before anything below it: with a
/// known value the expression becomes a constant and nothing below it is
/// looked at; without one the walk goes on below; a failed evaluation is
/// reported first and the walk goes on below all the same.
pub open spec fn fold_step(diagnostics: Seq<Diagnostic>, e: ExpressionView) -> (
    Seq<Diagnostic>,
    ExpressionView,
    VisitResult,
) {
    match const_value(e) {
        Evaluation::Value(v) => (diagnostics, constant_for(e, v), VisitResult::SkipChildren),
        Evaluation::NotConstant => (diagnostics, e, VisitResult::VisitChildren),
        Evaluation::Failed(error) => (
            diagnostics.push(Diagnostic::EvaluationFailed(error)),
            e,
            VisitResult::VisitChildren,
        ),
    }
}

/// An expression with its operands folded, and the failures met there.
pub open spec fn fold_operands(e: ExpressionView) -> (ExpressionView, Seq<Diagnostic>)
    decreases e, 0nat,
{
    match e {
        ExpressionView::Constant { .. } => (e, Seq::empty()),
        ExpressionView::Operation { parent, span, kind, outcome, operands } => {
            let (done, errors) = fold_expressions(operands, operands.len());
            (ExpressionView::Operation { parent, span, kind, outcome, operands: done }, errors)
        },
    }
}

/// The folded form of an expression, and the evaluation failures met on
/// the way, in the order of the walk.
pub open spec fn fold_expression(e: ExpressionView) -> (ExpressionView, Seq<Diagnostic>)
    decreases e, 1nat,
{
    match const_value(e) {
        Evaluation::Value(v) => (constant_for(e, v), Seq::empty()),
        Evaluation::NotConstant => fold_operands(e),
        Evaluation::Failed(error) => {
            let (folded, errors) = fold_operands(e);
            (folded, seq![Diagnostic::EvaluationFailed(error)] + errors)
        },
    }
}

/// A list with its first `n` expressions folded.
pub open spec fn fold_expressions(es: Seq<ExpressionView>, n: nat) -> (
    Seq<ExpressionView>,
    Seq<Diagnostic>,
)
    decreases es, n,
{
    if n == 0 || n > es.len() {
        (es, Seq::empty())
    } else {
        let (done, errors) = fold_expressions(es, (n - 1) as nat);
        let (folded, more) = fold_expression(es[n - 1]);
        (done.update(n - 1, folded), errors + more)
    }
}

/// A statement with all its expressions folded: its own first, then those
/// of the statements nested in it.
pub open spec fn fold_statement(t: StatementView) -> (StatementView, Seq<Diagnostic>)
    decreases t, 0nat,
{
    let (es, errors) = fold_expressions(t.expressions, t.expressions.len());
    let (ts, more) = fold_statements(t.statements, t.statements.len());
    (StatementView { expressions: es, statements: ts, ..t }, errors + more)
}

/// A list with its first `n` statements folded.
pub open spec fn fold_statements(ts: Seq<StatementView>, n: nat) -> (
    Seq<StatementView>,
    Seq<Diagnostic>,
)
    decreases ts, n,
{
    if n == 0 || n > ts.len() {
        (ts, Seq::empty())
    } else {
        let (done, errors) = fold_statements(ts, (n - 1) as nat);
        let (folded, more) = fold_statement(ts[n - 1]);
        (done.update(n - 1, folded), errors + more)
    }
}

/// A function with its body folded.
pub open spec fn fold_function(f: FunctionView) -> (FunctionView, Seq<Diagnostic>) {
    match f.body {
        None => (f, Seq::empty()),
        Some(b) => {
            let (folded, errors) = fold_statement(b);
            (FunctionView { body: Some(folded), ..f }, errors)
        },
    }
}

/// A list with its first `n` functions folded.
pub open spec fn fold_functions(fs: Seq<FunctionView>, n: nat) -> (
    Seq<FunctionView>,
    Seq<Diagnostic>,
)
    decreases n,
{
    if n == 0 || n > fs.len() {
        (fs, Seq::empty())
    } else {
        let (done, errors) = fold_functions(fs, (n - 1) as nat);
        let (folded, more) = fold_function(fs[n - 1]);
        (done.update(n - 1, folded), errors + more)
    }
}

/// A member of a circuit folded: a function has its body folded, a
/// variable stays.
pub open spec fn fold_member(m: CircuitMemberView) -> (CircuitMemberView, Seq<Diagnostic>) {
    match m {
        CircuitMemberView::Variable(..) => (m, Seq::empty()),
        CircuitMemberView::Function(f) => {
            let (folded, errors) = fold_function(f);
            (CircuitMemberView::Function(folded), errors)
        },
    }
}

/// The members of a circuit with the first `n` folded.
pub open spec fn fold_members(ms: Seq<CircuitMemberView>, n: nat) -> (
    Seq<CircuitMemberView>,
    Seq<Diagnostic>,
)
    decreases n,
{
    if n == 0 || n > ms.len() {
        (ms, Seq::empty())
    } else {
        let (done, errors) = fold_members(ms, (n - 1) as nat);
        let (folded, more) = fold_member(ms[n - 1]);
        (done.update(n - 1, folded), errors + more)
    }
}

/// A circuit with the bodies of its member functions folded.
pub open spec fn fold_circuit(c: CircuitView) -> (CircuitView, Seq<Diagnostic>) {
    let (ms, errors) = fold_members(c.members, c.members.len());
    (CircuitView { members: ms, ..c }, errors)
}

/// A list with its first `n` circuits folded.
pub open spec fn fold_circuits(cs: Seq<CircuitView>, n: nat) -> (
    Seq<CircuitView>,
    Seq<Diagnostic>,
)
    decreases n,
{
    if n == 0 || n > cs.len() {
        (cs, Seq::empty())
    } else {
        let (done, errors) = fold_circuits(cs, (n - 1) as nat);
        let (folded, more) = fold_circuit(cs[n - 1]);
        (done.update(n - 1, folded), errors + more)
    }
}

/// A program with every expression folded, and the evaluation failures
/// in the order of the walk: functions first, then circuits.
pub open spec fn fold_program(p: ProgramView) -> (ProgramView, Seq<Diagnostic>) {
    let (fs, errors) = fold_functions(p.functions, p.functions.len());
    let (cs, more) = fold_circuits(p.circuits, p.circuits.len());
    (ProgramView { functions: fs, circuits: cs, ..p }, errors + more)
}

/// Replaces each expression that has a compile-time value by a constant.
pub struct ConstantFolding {
    pub sink: DiagnosticSink,
}

impl Visitor for ConstantFolding {
    type State = Seq<Diagnostic>;

    open spec fn state(&self) -> Seq<Diagnostic> {
        self.sink@
    }

    open spec fn expression_hook(s: Seq<Diagnostic>, e: ExpressionView) -> (
        Seq<Diagnostic>,
        ExpressionView,
        VisitResult,
    ) {
        fold_step(s, e)
    }

    open spec fn statement_hook(s: Seq<Diagnostic>, t: StatementView) -> (
        Seq<Diagnostic>,
        VisitResult,
    ) {
        (s, VisitResult::VisitChildren)
    }

    open spec fn function_hook(s: Seq<Diagnostic>, f: FunctionView) -> (
        Seq<Diagnostic>,
        VisitResult,
    ) {
        (s, VisitResult::VisitChildren)
    }

    open spec fn circuit_hook(s: Seq<Diagnostic>, c: CircuitView) -> (
        Seq<Diagnostic>,
        VisitResult,
    ) {
        (s, VisitResult::VisitChildren)
    }

    open spec fn program_hook(s: Seq<Diagnostic>, p: ProgramView) -> (
        Seq<Diagnostic>,
        VisitResult,
    ) {
        (s, VisitResult::VisitChildren)
    }

    /// Folds the expression where it has a value, reports it where its
    /// evaluation failed.
    fn visit_expression(&mut self, e: &mut Expression) -> (r: VisitResult) {
        match e.const_value() {
            Evaluation::Value(value) => {
                let folded = Expression::Constant(
                    Constant { parent: e.get_parent(), span: e.span(), value },
                );
                *e = folded;
                VisitResult::SkipChildren
            },
            Evaluation::NotConstant => VisitResult::VisitChildren,
            Evaluation::Failed(error) => {
                self.sink.emit(Diagnostic::EvaluationFailed(error));
                VisitResult::VisitChildren
            },
        }
    }

    fn visit_statement(&mut self, t: &Statement) -> (r: VisitResult) {
        VisitResult::VisitChildren
    }

    fn visit_function(&mut self, f: &Function) -> (r: VisitResult) {
        VisitResult::VisitChildren
    }

    fn visit_circuit(&mut self, c: &Circuit) -> (r: VisitResult) {
        VisitResult::VisitChildren
    }

    fn visit_program(&mut self, p: &Program) -> (r: VisitResult) {
        VisitResult::VisitChildren
    }
}

/// The walk of the folder over an expression gives the folded expression
/// and adds the failures met to what was reported before.
proof fn lemma_walk_expression(d: Seq<Diagnostic>, e: ExpressionView)
    ensures
        walk_expression::<ConstantFolding>(d, e) == (
            d + fold_expression(e).1,
            fold_expression(e).0,
            false,
        ),
    decreases e, 0nat,
{
    match const_value(e) {
        Evaluation::Value(v) => {
            assert(d + Seq::<Diagnostic>::empty() =~= d);
        },
        Evaluation::NotConstant => {
            match e {
                ExpressionView::Constant { .. } => {},
                ExpressionView::Operation { parent, span, kind, outcome, operands } => {
                    lemma_walk_expressions(d, operands, operands.len());
                },
            }
        },
        Evaluation::Failed(error) => {
            let d1 = d.push(Diagnostic::EvaluationFailed(error));
            match e {
                ExpressionView::Constant { .. } => {},
                ExpressionView::Operation { parent, span, kind, outcome, operands } => {
                    lemma_walk_expressions(d1, operands, operands.len());
                    let errors = fold_expressions(operands, operands.len()).1;
                    assert(d1 + errors =~= d + (seq![Diagnostic::EvaluationFailed(error)]
                        + errors));
                },
            }
        },
    }
}

/// The same for the first `n` expressions of a list.
proof fn lemma_walk_expressions(d: Seq<Diagnostic>, es: Seq<ExpressionView>, n: nat)
    ensures
        walk_expressions::<ConstantFolding>(d, es, n) == (
            d + fold_expressions(es, n).1,
            fold_expressions(es, n).0,
            false,
        ),
    decreases es, n,
{
    if n == 0 || n > es.len() {
        assert(d + Seq::<Diagnostic>::empty() =~= d);
    } else {
        lemma_walk_expressions(d, es, (n - 1) as nat);
        let errors = fold_expressions(es, (n - 1) as nat).1;
        lemma_walk_expression(d + errors, es[n - 1]);
        let more = fold_expression(es[n - 1]).1;
        assert((d + errors) + more =~= d + (errors + more));
    }
}

/// The same for a statement.
proof fn lemma_walk_statement(d: Seq<Diagnostic>, t: StatementView)
    ensures
        walk_statement::<ConstantFolding>(d, t) == (
            d + fold_statement(t).1,
            fold_statement(t).0,
            false,
        ),
    decreases t, 0nat,
{
    lemma_walk_expressions(d, t.expressions, t.expressions.len());
    let errors = fold_expressions(t.expressions, t.expressions.len()).1;
    lemma_walk_statements(d + errors, t.statements, t.statements.len());
    let more = fold_statements(t.statements, t.statements.len()).1;
    assert((d + errors) + more =~= d + (errors + more));
}

/// The same for the first `n` statements of a list.
proof fn lemma_walk_statements(d: Seq<Diagnostic>, ts: Seq<StatementView>, n: nat)
    ensures
        walk_statements::<ConstantFolding>(d, ts, n) == (
            d + fold_statements(ts, n).1,
            fold_statements(ts, n).0,
            false,
        ),
    decreases ts, n,
{
    if n == 0 || n > ts.len() {
        assert(d + Seq::<Diagnostic>::empty() =~= d);
    } else {
        lemma_walk_statements(d, ts, (n - 1) as nat);
        let errors = fold_statements(ts, (n - 1) as nat).1;
        lemma_walk_statement(d + errors, ts[n - 1]);
        let more = fold_statement(ts[n - 1]).1;
        assert((d + errors) + more =~= d + (errors + more));
    }
}

/// The same for a function.
proof fn lemma_walk_function(d: Seq<Diagnostic>, f: FunctionView)
    ensures
        walk_function::<ConstantFolding>(d, f) == (
            d + fold_function(f).1,
            fold_function(f).0,
            false,
        ),
{
    match f.body {
        None => {
            assert(d + Seq::<Diagnostic>::empty() =~= d);
        },
        Some(b) => {
            lemma_walk_statement(d, b);
        },
    }
}

/// The same for the first `n` functions of a list.
proof fn lemma_walk_functions(d: Seq<Diagnostic>, fs: Seq<FunctionView>, n: nat)
    ensures
        walk_functions::<ConstantFolding>(d, fs, n) == (
            d + fold_functions(fs, n).1,
            fold_functions(fs, n).0,
            false,
        ),
    decreases n,
{
    if n == 0 || n > fs.len() {
        assert(d + Seq::<Diagnostic>::empty() =~= d);
    } else {
        lemma_walk_functions(d, fs, (n - 1) as nat);
        let errors = fold_functions(fs, (n - 1) as nat).1;
        lemma_walk_function(d + errors, fs[n - 1]);
        let more = fold_function(fs[n - 1]).1;
        assert((d + errors) + more =~= d + (errors + more));
    }
}

/// The same for a member of a circuit.
proof fn lemma_walk_member(d: Seq<Diagnostic>, m: CircuitMemberView)
    ensures
        walk_member::<ConstantFolding>(d, m) == (d + fold_member(m).1, fold_member(m).0, false),
{
    match m {
        CircuitMemberView::Variable(..) => {
            assert(d + Seq::<Diagnostic>::empty() =~= d);
        },
        CircuitMemberView::Function(f) => {
            lemma_walk_function(d, f);
        },
    }
}

/// The same for the first `n` members of a circuit.
proof fn lemma_walk_members(d: Seq<Diagnostic>, ms: Seq<CircuitMemberView>, n: nat)
    ensures
        walk_members::<ConstantFolding>(d, ms, n) == (
            d + fold_members(ms, n).1,
            fold_members(ms, n).0,
            false,
        ),
    decreases n,
{
    if n == 0 || n > ms.len() {
        assert(d + Seq::<Diagnostic>::empty() =~= d);
    } else {
        lemma_walk_members(d, ms, (n - 1) as nat);
        let errors = fold_members(ms, (n - 1) as nat).1;
        lemma_walk_member(d + errors, ms[n - 1]);
        let more = fold_member(ms[n - 1]).1;
        assert((d + errors) + more =~= d + (errors + more));
    }
}

/// The same for a circuit.
proof fn lemma_walk_circuit(d: Seq<Diagnostic>, c: CircuitView)
    ensures
        walk_circuit::<ConstantFolding>(d, c) == (
            d + fold_circuit(c).1,
            fold_circuit(c).0,
            false,
        ),
{
    lemma_walk_members(d, c.members, c.members.len());
}

/// The same for the first `n` circuits of a list.
proof fn lemma_walk_circuits(d: Seq<Diagnostic>, cs: Seq<CircuitView>, n: nat)
    ensures
        walk_circuits::<ConstantFolding>(d, cs, n) == (
            d + fold_circuits(cs, n).1,
            fold_circuits(cs, n).0,
            false,
        ),
    decreases n,
{
    if n == 0 || n > cs.len() {
        assert(d + Seq::<Diagnostic>::empty() =~= d);
    } else {
        lemma_walk_circuits(d, cs, (n - 1) as nat);
        let errors = fold_circuits(cs, (n - 1) as nat).1;
        lemma_walk_circuit(d + errors, cs[n - 1]);
        let more = fold_circuit(cs[n - 1]).1;
        assert((d + errors) + more =~= d + (errors + more));
    }
}

/// The walk of the folder over a program gives the folded program, adds
/// the evaluation failures to what was reported before, and never ends
/// early.
pub proof fn lemma_walk_program(d: Seq<Diagnostic>, p: ProgramView)
    ensures
        walk_program::<ConstantFolding>(d, p) == (
            d + fold_program(p).1,
            fold_program(p).0,
            false,
        ),
{
    lemma_walk_functions(d, p.functions, p.functions.len());
    let errors = fold_functions(p.functions, p.functions.len()).1;
    lemma_walk_circuits(d + errors, p.circuits, p.circuits.len());
    let more = fold_circuits(p.circuits, p.circuits.len()).1;
    assert((d + errors) + more =~= d + (errors + more));
}

impl ConstantFolding {
    /// Folds every expression of the program. The evaluation failures go
    /// to the sink, after what it held, in the order of the walk.
    pub fn do_pass(program: Program, sink: &mut DiagnosticSink) -> (r: Result<Program, FatalError>)
        ensures
            r matches Ok(folded) && folded@ == fold_program(program@).0,
            final(sink)@ == old(sink)@ + fold_program(program@).1,
    {
        let mut program = program;
        let ghost given = program@;
        let pass = ConstantFolding { sink: DiagnosticSink::new() };
        let mut director = VisitorDirector::new(pass);
        let _ = director.visit_program(&mut program);
        proof {
            lemma_walk_program(Seq::empty(), given);
            assert(Seq::<Diagnostic>::empty() + fold_program(given).1 =~= fold_program(given).1);
        }
        let mut pass = director.visitor();
        sink.absorb(&mut pass.sink);
        Ok(program)
    }
}

/// Folding keeps every place of a list: the place of each of the first
/// `n` expressions holds its folded form, the others hold what they held.
pub proof fn lemma_fold_expressions_places(es: Seq<ExpressionView>, n: nat)
    requires
        n <= es.len(),
    ensures
        fold_expressions(es, n).0.len() == es.len(),
        forall|j: int|
            0 <= j < n ==> (#[trigger] fold_expressions(es, n).0[j]) == fold_expression(es[j]).0,
        forall|j: int| n <= j < es.len() ==> (#[trigger] fold_expressions(es, n).0[j]) == es[j],
    decreases n,
{
    if n > 0 {
        lemma_fold_expressions_places(es, (n - 1) as nat);
    }
}

/// The same for a list of statements.
pub proof fn lemma_fold_statements_places(ts: Seq<StatementView>, n: nat)
    requires
        n <= ts.len(),
    ensures
        fold_statements(ts, n).0.len() == ts.len(),
        forall|j: int|
            0 <= j < n ==> (#[trigger] fold_statements(ts, n).0[j]) == fold_statement(ts[j]).0,
        forall|j: int| n <= j < ts.len() ==> (#[trigger] fold_statements(ts, n).0[j]) == ts[j],
    decreases n,
{
    if n > 0 {
        lemma_fold_statements_places(ts, (n - 1) as nat);
    }
}

/// The same for a list of functions.
pub proof fn lemma_fold_functions_places(fs: Seq<FunctionView>, n: nat)
    requires
        n <= fs.len(),
    ensures
        fold_functions(fs, n).0.len() == fs.len(),
        forall|j: int|
            0 <= j < n ==> (#[trigger] fold_functions(fs, n).0[j]) == fold_function(fs[j]).0,
        forall|j: int| n <= j < fs.len() ==> (#[trigger] fold_functions(fs, n).0[j]) == fs[j],
    decreases n,
{
    if n > 0 {
        lemma_fold_functions_places(fs, (n - 1) as nat);
    }
}

/// The same for the members of a circuit.
pub proof fn lemma_fold_members_places(ms: Seq<CircuitMemberView>, n: nat)
    requires
        n <= ms.len(),
    ensures
        fold_members(ms, n).0.len() == ms.len(),
        forall|j: int|
            0 <= j < n ==> (#[trigger] fold_members(ms, n).0[j]) == fold_member(ms[j]).0,
        forall|j: int| n <= j < ms.len() ==> (#[trigger] fold_members(ms, n).0[j]) == ms[j],
    decreases n,
{
    if n > 0 {
        lemma_fold_members_places(ms, (n - 1) as nat);
    }
}

/// The same for a list of circuits.
pub proof fn lemma_fold_circuits_places(cs: Seq<CircuitView>, n: nat)
    requires
        n <= cs.len(),
    ensures
        fold_circuits(cs, n).0.len() == cs.len(),
        forall|j: int|
            0 <= j < n ==> (#[trigger] fold_circuits(cs, n).0[j]) == fold_circuit(cs[j]).0,
        forall|j: int| n <= j < cs.len() ==> (#[trigger] fold_circuits(cs, n).0[j]) == cs[j],
    decreases n,
{
    if n > 0 {
        lemma_fold_circuits_places(cs, (n - 1) as nat);
    }
}

/// Folding is sound: an expression that evaluates to a value is folded to
/// the constant of that value, with the parent and span of the expression,
/// and nothing is reported for it.
pub proof fn lemma_fold_sound(e: ExpressionView, v: ConstValue)
    requires
        const_value(e) == Evaluation::Value(v),
    ensures
        fold_expression(e).0 == (ExpressionView::Constant {
            parent: parent_of(e),
            span: span_of(e),
            value: v,
        }),
        fold_expression(e).1 == Seq::<Diagnostic>::empty(),
{
}

/// Folding an expression twice gives what folding it once gives.
pub proof fn lemma_fold_expression_idempotent(e: ExpressionView)
    ensures
        fold_expression(fold_expression(e).0).0 == fold_expression(e).0,
    decreases e,
{
    match const_value(e) {
        Evaluation::Value(v) => {},
        _ => {
            match e {
                ExpressionView::Constant { .. } => {},
                ExpressionView::Operation { parent, span, kind, outcome, operands } => {
                    let once = fold_expressions(operands, operands.len()).0;
                    lemma_fold_expressions_places(operands, operands.len());
                    lemma_fold_expressions_places(once, once.len());
                    assert forall|j: int| 0 <= j < once.len() implies fold_expressions(
                        once,
                        once.len(),
                    ).0[j] == once[j] by {
                        lemma_fold_expression_idempotent(operands[j]);
                    }
                    assert(fold_expressions(once, once.len()).0 =~= once);
                },
            }
        },
    }
}

/// Folding a statement twice gives what folding it once gives.
pub proof fn lemma_fold_statement_idempotent(t: StatementView)
    ensures
        fold_statement(fold_statement(t).0).0 == fold_statement(t).0,
    decreases t,
{
    let es = fold_expressions(t.expressions, t.expressions.len()).0;
    lemma_fold_expressions_places(t.expressions, t.expressions.len());
    lemma_fold_expressions_places(es, es.len());
    assert forall|j: int| 0 <= j < es.len() implies fold_expressions(es, es.len()).0[j]
        == es[j] by {
        lemma_fold_expression_idempotent(t.expressions[j]);
    }
    assert(fold_expressions(es, es.len()).0 =~= es);
    let ts = fold_statements(t.statements, t.statements.len()).0;
    lemma_fold_statements_places(t.statements, t.statements.len());
    lemma_fold_statements_places(ts, ts.len());
    assert forall|j: int| 0 <= j < ts.len() implies fold_statements(ts, ts.len()).0[j]
        == ts[j] by {
        lemma_fold_statement_idempotent(t.statements[j]);
    }
    assert(fold_statements(ts, ts.len()).0 =~= ts);
}

/// Folding a function twice gives what folding it once gives.
pub proof fn lemma_fold_function_idempotent(f: FunctionView)
    ensures
        fold_function(fold_function(f).0).0 == fold_function(f).0,
{
    match f.body {
        None => {},
        Some(b) => {
            lemma_fold_statement_idempotent(b);
        },
    }
}

/// Folding a member of a circuit twice gives what folding it once gives.
proof fn lemma_fold_member_idempotent(m: CircuitMemberView)
    ensures
        fold_member(fold_member(m).0).0 == fold_member(m).0,
{
    match m {
        CircuitMemberView::Variable(..) => {},
        CircuitMemberView::Function(f) => {
            lemma_fold_function_idempotent(f);
        },
    }
}

/// Folding a circuit twice gives what folding it once gives.
proof fn lemma_fold_circuit_idempotent(c: CircuitView)
    ensures
        fold_circuit(fold_circuit(c).0).0 == fold_circuit(c).0,
{
    let ms = fold_members(c.members, c.members.len()).0;
    lemma_fold_members_places(c.members, c.members.len());
    lemma_fold_members_places(ms, ms.len());
    assert forall|j: int| 0 <= j < ms.len() implies fold_members(ms, ms.len()).0[j] == ms[j] by {
        lemma_fold_member_idempotent(c.members[j]);
    }
    assert(fold_members(ms, ms.len()).0 =~= ms);
}

/// Folding is idempotent: the pass run on its own result changes nothing.
pub proof fn lemma_fold_program_idempotent(p: ProgramView)
    ensures
        fold_program(fold_program(p).0).0 == fold_program(p).0,
{
    let fs = fold_functions(p.functions, p.functions.len()).0;
    lemma_fold_functions_places(p.functions, p.functions.len());
    lemma_fold_functions_places(fs, fs.len());
    assert forall|j: int| 0 <= j < fs.len() implies fold_functions(fs, fs.len()).0[j]
        == fs[j] by {
        lemma_fold_function_idempotent(p.functions[j]);
    }
    assert(fold_functions(fs, fs.len()).0 =~= fs);
    let cs = fold_circuits(p.circuits, p.circuits.len()).0;
    lemma_fold_circuits_places(p.circuits, p.circuits.len());
    lemma_fold_circuits_places(cs, cs.len());
    assert forall|j: int| 0 <= j < cs.len() implies fold_circuits(cs, cs.len()).0[j]
        == cs[j] by {
        lemma_fold_circuit_idempotent(p.circuits[j]);
    }
    assert(fold_circuits(cs, cs.len()).0 =~= cs);
}

} // verus!
