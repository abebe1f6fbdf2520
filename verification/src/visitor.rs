use vstd::prelude::*;
use crate::graph::{
    circuit_views, expression_views, function_views, lemma_expression_views,
    lemma_statement_views, member_views, statement_views, Circuit, CircuitMember,
    CircuitMemberView, CircuitView, Expression, ExpressionView, Function, FunctionView, Program,
    ProgramView, Statement, StatementView,
};

verus! {

/// What a visitor asks of the walk after it has seen a node.
#[derive(Clone, Copy, Debug, PartialEq, Eq, Structural)]
pub enum VisitResult {
    /// Go on into the node's children.
    VisitChildren,
    /// Leave the node's children out and go on with what follows the node.
    SkipChildren,
    /// End the whole walk here.
    Exit,
}

impl Default for VisitResult {
    /// A visitor with nothing to say lets the walk go on.
    fn default() -> (r: VisitResult)
        ensures
            r == VisitResult::VisitChildren,
    {
        VisitResult::VisitChildren
    }
}

/// What a pass does at each kind of node. The walk itself belongs to the
/// director; a visitor only says, node by node, how its state changes and
/// how the walk goes on. Each hook is a function of the state and the node.
pub trait Visitor {
    /// What the visitor has gathered so far, as a mathematical value.
    type State;

    /// The state that the visitor is in.
    spec fn state(&self) -> Self::State;

    /// At an expression: the new state, the expression that stands in the
    /// place afterwards, and the signal.
    spec fn expression_hook(s: Self::State, e: ExpressionView) -> (
        Self::State,
        ExpressionView,
        VisitResult,
    );

    /// At a statement: the new state and the signal.
    spec fn statement_hook(s: Self::State, t: StatementView) -> (Self::State, VisitResult);

    /// At a function, before its body: the new state and the signal.
    spec fn function_hook(s: Self::State, f: FunctionView) -> (Self::State, VisitResult);

    /// At a circuit, before its members: the new state and the signal.
    spec fn circuit_hook(s: Self::State, c: CircuitView) -> (Self::State, VisitResult);

    /// At the program, before anything in it: the new state and the signal.
    spec fn program_hook(s: Self::State, p: ProgramView) -> (Self::State, VisitResult);

    /// May put another expression in the place of the visited one, but only
    /// when it does not ask the walk to go on into the children.
    fn visit_expression(&mut self, e: &mut Expression) -> (r: VisitResult)
        ensures
            (final(self).state(), final(e)@, r) == Self::expression_hook(
                old(self).state(),
                old(e)@,
            ),
            r == VisitResult::VisitChildren ==> final(e)@ == old(e)@,
    ;

    /// Looks at a statement; the statement stays as it is.
    fn visit_statement(&mut self, t: &Statement) -> (r: VisitResult)
        ensures
            (final(self).state(), r) == Self::statement_hook(old(self).state(), t@),
    ;

    /// Looks at a function; the function stays as it is.
    fn visit_function(&mut self, f: &Function) -> (r: VisitResult)
        ensures
            (final(self).state(), r) == Self::function_hook(old(self).state(), f@),
    ;

    /// Looks at a circuit; the circuit stays as it is.
    fn visit_circuit(&mut self, c: &Circuit) -> (r: VisitResult)
        ensures
            (final(self).state(), r) == Self::circuit_hook(old(self).state(), c@),
    ;

    /// Looks at the program; the program stays as it is.
    fn visit_program(&mut self, p: &Program) -> (r: VisitResult)
        ensures
            (final(self).state(), r) == Self::program_hook(old(self).state(), p@),
    ;
}

/// The walk over one expression: the state after it, the expression that
/// stands in its place, and whether the walk was ended.
pub open spec fn walk_expression<V: Visitor>(s: V::State, e: ExpressionView) -> (
    V::State,
    ExpressionView,
    bool,
)
    decreases e, 0nat,
{
    let (s1, e1, r) = V::expression_hook(s, e);
    match r {
        VisitResult::Exit => (s1, e1, true),
        VisitResult::SkipChildren => (s1, e1, false),
        VisitResult::VisitChildren => match e {
            ExpressionView::Constant { .. } => (s1, e, false),
            ExpressionView::Operation { parent, span, kind, outcome, operands } => {
                let (s2, done, stopped) = walk_expressions::<V>(s1, operands, operands.len());
                (
                    s2,
                    ExpressionView::Operation { parent, span, kind, outcome, operands: done },
                    stopped,
                )
            },
        },
    }
}

/// The walk over the first `n` expressions of a list, in order, up to the
/// one that ends it: the list holds what stands in each place afterwards.
pub open spec fn walk_expressions<V: Visitor>(s: V::State, es: Seq<ExpressionView>, n: nat) -> (
    V::State,
    Seq<ExpressionView>,
    bool,
)
    decreases es, n,
{
    if n == 0 || n > es.len() {
        (s, es, false)
    } else {
        let (s1, done, stopped) = walk_expressions::<V>(s, es, (n - 1) as nat);
        if stopped {
            (s1, done, true)
        } else {
            let (s2, e2, stopped2) = walk_expression::<V>(s1, es[n - 1]);
            (s2, done.update(n - 1, e2), stopped2)
        }
    }
}

/// The walk over one statement: its expressions first, then the statements
/// nested in it.
pub open spec fn walk_statement<V: Visitor>(s: V::State, t: StatementView) -> (
    V::State,
    StatementView,
    bool,
)
    decreases t, 0nat,
{
    let (s1, r) = V::statement_hook(s, t);
    match r {
        VisitResult::Exit => (s1, t, true),
        VisitResult::SkipChildren => (s1, t, false),
        VisitResult::VisitChildren => {
            let (s2, es, stopped) = walk_expressions::<V>(s1, t.expressions, t.expressions.len());
            if stopped {
                (s2, StatementView { expressions: es, ..t }, true)
            } else {
                let (s3, ts, stopped3) = walk_statements::<V>(s2, t.statements, t.statements.len());
                (s3, StatementView { expressions: es, statements: ts, ..t }, stopped3)
            }
        },
    }
}

/// The walk over the first `n` statements of a list, in order, up to the
/// one that ends it.
pub open spec fn walk_statements<V: Visitor>(s: V::State, ts: Seq<StatementView>, n: nat) -> (
    V::State,
    Seq<StatementView>,
    bool,
)
    decreases ts, n,
{
    if n == 0 || n > ts.len() {
        (s, ts, false)
    } else {
        let (s1, done, stopped) = walk_statements::<V>(s, ts, (n - 1) as nat);
        if stopped {
            (s1, done, true)
        } else {
            let (s2, t2, stopped2) = walk_statement::<V>(s1, ts[n - 1]);
            (s2, done.update(n - 1, t2), stopped2)
        }
    }
}

/// The walk over one function: the function itself, then its body.
pub open spec fn walk_function<V: Visitor>(s: V::State, f: FunctionView) -> (
    V::State,
    FunctionView,
    bool,
) {
    let (s1, r) = V::function_hook(s, f);
    match r {
        VisitResult::Exit => (s1, f, true),
        VisitResult::SkipChildren => (s1, f, false),
        VisitResult::VisitChildren => match f.body {
            None => (s1, f, false),
            Some(b) => {
                let (s2, b2, stopped) = walk_statement::<V>(s1, b);
                (s2, FunctionView { body: Some(b2), ..f }, stopped)
            },
        },
    }
}

/// The walk over the first `n` functions of a list, in order, up to the
/// one that ends it.
pub open spec fn walk_functions<V: Visitor>(s: V::State, fs: Seq<FunctionView>, n: nat) -> (
    V::State,
    Seq<FunctionView>,
    bool,
)
    decreases n,
{
    if n == 0 || n > fs.len() {
        (s, fs, false)
    } else {
        let (s1, done, stopped) = walk_functions::<V>(s, fs, (n - 1) as nat);
        if stopped {
            (s1, done, true)
        } else {
            let (s2, f2, stopped2) = walk_function::<V>(s1, fs[n - 1]);
            (s2, done.update(n - 1, f2), stopped2)
        }
    }
}

/// The walk over one member of a circuit: only a function is walked.
pub open spec fn walk_member<V: Visitor>(s: V::State, m: CircuitMemberView) -> (
    V::State,
    CircuitMemberView,
    bool,
) {
    match m {
        CircuitMemberView::Variable(..) => (s, m, false),
        CircuitMemberView::Function(f) => {
            let (s1, f1, stopped) = walk_function::<V>(s, f);
            (s1, CircuitMemberView::Function(f1), stopped)
        },
    }
}

/// The walk over the first `n` members of a circuit, in order, up to the
/// one that ends it.
pub open spec fn walk_members<V: Visitor>(s: V::State, ms: Seq<CircuitMemberView>, n: nat) -> (
    V::State,
    Seq<CircuitMemberView>,
    bool,
)
    decreases n,
{
    if n == 0 || n > ms.len() {
        (s, ms, false)
    } else {
        let (s1, done, stopped) = walk_members::<V>(s, ms, (n - 1) as nat);
        if stopped {
            (s1, done, true)
        } else {
            let (s2, m2, stopped2) = walk_member::<V>(s1, ms[n - 1]);
            (s2, done.update(n - 1, m2), stopped2)
        }
    }
}

/// The walk over one circuit: the circuit itself, then its members.
pub open spec fn walk_circuit<V: Visitor>(s: V::State, c: CircuitView) -> (
    V::State,
    CircuitView,
    bool,
) {
    let (s1, r) = V::circuit_hook(s, c);
    match r {
        VisitResult::Exit => (s1, c, true),
        VisitResult::SkipChildren => (s1, c, false),
        VisitResult::VisitChildren => {
            let (s2, ms, stopped) = walk_members::<V>(s1, c.members, c.members.len());
            (s2, CircuitView { members: ms, ..c }, stopped)
        },
    }
}

/// The walk over the first `n` circuits of a list, in order, up to the
/// one that ends it.
pub open spec fn walk_circuits<V: Visitor>(s: V::State, cs: Seq<CircuitView>, n: nat) -> (
    V::State,
    Seq<CircuitView>,
    bool,
)
    decreases n,
{
    if n == 0 || n > cs.len() {
        (s, cs, false)
    } else {
        let (s1, done, stopped) = walk_circuits::<V>(s, cs, (n - 1) as nat);
        if stopped {
            (s1, done, true)
        } else {
            let (s2, c2, stopped2) = walk_circuit::<V>(s1, cs[n - 1]);
            (s2, done.update(n - 1, c2), stopped2)
        }
    }
}

/// The walk over a program: the program itself, then its functions, then
/// its circuits.
pub open spec fn walk_program<V: Visitor>(s: V::State, p: ProgramView) -> (
    V::State,
    ProgramView,
    bool,
) {
    let (s1, r) = V::program_hook(s, p);
    match r {
        VisitResult::Exit => (s1, p, true),
        VisitResult::SkipChildren => (s1, p, false),
        VisitResult::VisitChildren => {
            let (s2, fs, stopped) = walk_functions::<V>(s1, p.functions, p.functions.len());
            if stopped {
                (s2, ProgramView { functions: fs, ..p }, true)
            } else {
                let (s3, cs, stopped3) = walk_circuits::<V>(s2, p.circuits, p.circuits.len());
                (s3, ProgramView { functions: fs, circuits: cs, ..p }, stopped3)
            }
        },
    }
}

/// Skipping means skipping: when the visitor asks at an expression to
/// leave the children out, the walk over that expression is the hook alone.
/// The state is what the hook left and the place holds what the hook put
/// there, so nothing below the expression was visited.
pub proof fn lemma_skip_expression<V: Visitor>(s: V::State, e: ExpressionView)
    requires
        V::expression_hook(s, e).2 == VisitResult::SkipChildren,
    ensures
        walk_expression::<V>(s, e) == (
            V::expression_hook(s, e).0,
            V::expression_hook(s, e).1,
            false,
        ),
{
}

/// The same for a statement: neither its expressions nor the statements
/// nested in it are visited.
pub proof fn lemma_skip_statement<V: Visitor>(s: V::State, t: StatementView)
    requires
        V::statement_hook(s, t).1 == VisitResult::SkipChildren,
    ensures
        walk_statement::<V>(s, t) == (V::statement_hook(s, t).0, t, false),
{
}

/// The same for a function: its body is not visited.
pub proof fn lemma_skip_function<V: Visitor>(s: V::State, f: FunctionView)
    requires
        V::function_hook(s, f).1 == VisitResult::SkipChildren,
    ensures
        walk_function::<V>(s, f) == (V::function_hook(s, f).0, f, false),
{
}

/// The same for a circuit: its members are not visited.
pub proof fn lemma_skip_circuit<V: Visitor>(s: V::State, c: CircuitView)
    requires
        V::circuit_hook(s, c).1 == VisitResult::SkipChildren,
    ensures
        walk_circuit::<V>(s, c) == (V::circuit_hook(s, c).0, c, false),
{
}

/// The same for a program: nothing in it is visited.
pub proof fn lemma_skip_program<V: Visitor>(s: V::State, p: ProgramView)
    requires
        V::program_hook(s, p).1 == VisitResult::SkipChildren,
    ensures
        walk_program::<V>(s, p) == (V::program_hook(s, p).0, p, false),
{
}

/// A visitor that ends the walk ends it for good: in a list, nothing after
/// the expression that ended it is visited, and each such place holds what
/// it held.
pub proof fn lemma_exit_ends_list<V: Visitor>(s: V::State, es: Seq<ExpressionView>, i: nat, n: nat)
    requires
        i <= n <= es.len(),
        walk_expressions::<V>(s, es, i).2,
    ensures
        walk_expressions::<V>(s, es, n) == walk_expressions::<V>(s, es, i),
{
    lemma_expressions_stopped::<V>(s, es, i, n);
}

/// Once the walk over a list of expressions has ended, going further
/// along the list changes nothing.
proof fn lemma_expressions_stopped<V: Visitor>(s: V::State, es: Seq<ExpressionView>, i: nat, n: nat)
    requires
        i <= n <= es.len(),
        walk_expressions::<V>(s, es, i).2,
    ensures
        walk_expressions::<V>(s, es, n) == walk_expressions::<V>(s, es, i),
    decreases n - i,
{
    if i < n {
        lemma_expressions_stopped::<V>(s, es, i, (n - 1) as nat);
    }
}

/// The same for a list of statements.
proof fn lemma_statements_stopped<V: Visitor>(s: V::State, ts: Seq<StatementView>, i: nat, n: nat)
    requires
        i <= n <= ts.len(),
        walk_statements::<V>(s, ts, i).2,
    ensures
        walk_statements::<V>(s, ts, n) == walk_statements::<V>(s, ts, i),
    decreases n - i,
{
    if i < n {
        lemma_statements_stopped::<V>(s, ts, i, (n - 1) as nat);
    }
}

/// The same for a list of functions.
proof fn lemma_functions_stopped<V: Visitor>(s: V::State, fs: Seq<FunctionView>, i: nat, n: nat)
    requires
        i <= n <= fs.len(),
        walk_functions::<V>(s, fs, i).2,
    ensures
        walk_functions::<V>(s, fs, n) == walk_functions::<V>(s, fs, i),
    decreases n - i,
{
    if i < n {
        lemma_functions_stopped::<V>(s, fs, i, (n - 1) as nat);
    }
}

/// The same for the members of a circuit.
proof fn lemma_members_stopped<V: Visitor>(s: V::State, ms: Seq<CircuitMemberView>, i: nat, n: nat)
    requires
        i <= n <= ms.len(),
        walk_members::<V>(s, ms, i).2,
    ensures
        walk_members::<V>(s, ms, n) == walk_members::<V>(s, ms, i),
    decreases n - i,
{
    if i < n {
        lemma_members_stopped::<V>(s, ms, i, (n - 1) as nat);
    }
}

/// The same for a list of circuits.
proof fn lemma_circuits_stopped<V: Visitor>(s: V::State, cs: Seq<CircuitView>, i: nat, n: nat)
    requires
        i <= n <= cs.len(),
        walk_circuits::<V>(s, cs, i).2,
    ensures
        walk_circuits::<V>(s, cs, n) == walk_circuits::<V>(s, cs, i),
    decreases n - i,
{
    if i < n {
        lemma_circuits_stopped::<V>(s, cs, i, (n - 1) as nat);
    }
}

/// Drives a visitor over a graph. The director alone knows in which order
/// the children of each kind of node come.
pub struct VisitorDirector<V: Visitor> {
    pub visitor: V,
}

impl<V: Visitor> VisitorDirector<V> {
    /// A director that drives the given visitor.
    pub fn new(visitor: V) -> (r: Self)
        ensures
            r.visitor == visitor,
    {
        VisitorDirector { visitor }
    }

    /// Hands the visitor back.
    pub fn visitor(self) -> (r: V)
        ensures
            r == self.visitor,
    {
        self.visitor
    }

    /// Walks the first expressions of a list in order until one ends the walk.
    fn visit_expressions(&mut self, es: &mut Vec<Expression>) -> (stopped: bool)
        ensures
            (final(self).visitor.state(), expression_views(final(es)@), stopped)
                == walk_expressions::<V>(
                old(self).visitor.state(),
                expression_views(old(es)@),
                old(es)@.len(),
            ),
        decreases expression_views(old(es)@), 0nat,
    {
        let ghost s0 = self.visitor.state();
        let ghost es0 = expression_views(es@);
        proof {
            lemma_expression_views(es@);
        }
        let n = es.len();
        let mut i: usize = 0;
        let mut stopped = false;
        while i < n && !stopped
            invariant
                i <= n,
                n == es@.len(),
                n == es0.len(),
                es0 == expression_views(old(es)@),
                (self.visitor.state(), expression_views(es@), stopped) == walk_expressions::<V>(
                    s0,
                    es0,
                    i as nat,
                ),
                forall|j: int| i <= j < n ==> (#[trigger] es@[j])@ == es0[j],
            decreases n - i,
        {
            let ghost before = es@;
            stopped = self.visit_expression(&mut es[i]);
            proof {
                lemma_expression_views(before);
                lemma_expression_views(es@);
                assert(expression_views(es@) =~= expression_views(before).update(
                    i as int,
                    es@[i as int]@,
                ));
            }
            i += 1;
        }
        proof {
            if i < n {
                lemma_expressions_stopped::<V>(s0, es0, i as nat, n as nat);
            }
        }
        stopped
    }

    /// Walks one expression and what lies below it. Returns whether the
    /// visitor ended the walk.
    pub fn visit_expression(&mut self, e: &mut Expression) -> (stopped: bool)
        ensures
            (final(self).visitor.state(), final(e)@, stopped) == walk_expression::<V>(
                old(self).visitor.state(),
                old(e)@,
            ),
        decreases old(e)@, 0nat,
    {
        let r = self.visitor.visit_expression(e);
        match r {
            VisitResult::Exit => true,
            VisitResult::SkipChildren => false,
            VisitResult::VisitChildren => {
                match e {
                    Expression::Constant(_) => false,
                    Expression::Operation(o) => {
                        proof {
                            lemma_expression_views(o.operands@);
                        }
                        assert(old(e)@->Operation_operands == expression_views(o.operands@));
                        assert(decreases_to!(old(e)@ => old(e)@->Operation_operands));
                        let stopped = self.visit_expressions(&mut o.operands);
                        assert(Expression::Operation(*o)@->Operation_operands == expression_views(
                            o.operands@,
                        ));
                        stopped
                    },
                }
            },
        }
    }

    /// Walks the statements of a list in order until one ends the walk.
    fn visit_statements(&mut self, ts: &mut Vec<Statement>) -> (stopped: bool)
        ensures
            (final(self).visitor.state(), statement_views(final(ts)@), stopped)
                == walk_statements::<V>(
                old(self).visitor.state(),
                statement_views(old(ts)@),
                old(ts)@.len(),
            ),
        decreases statement_views(old(ts)@), 0nat,
    {
        let ghost s0 = self.visitor.state();
        let ghost ts0 = statement_views(ts@);
        proof {
            lemma_statement_views(ts@);
        }
        let n = ts.len();
        let mut i: usize = 0;
        let mut stopped = false;
        while i < n && !stopped
            invariant
                i <= n,
                n == ts@.len(),
                n == ts0.len(),
                ts0 == statement_views(old(ts)@),
                (self.visitor.state(), statement_views(ts@), stopped) == walk_statements::<V>(
                    s0,
                    ts0,
                    i as nat,
                ),
                forall|j: int| i <= j < n ==> (#[trigger] ts@[j])@ == ts0[j],
            decreases n - i,
        {
            let ghost before = ts@;
            stopped = self.visit_statement(&mut ts[i]);
            proof {
                lemma_statement_views(before);
                lemma_statement_views(ts@);
                assert(statement_views(ts@) =~= statement_views(before).update(
                    i as int,
                    ts@[i as int]@,
                ));
            }
            i += 1;
        }
        proof {
            if i < n {
                lemma_statements_stopped::<V>(s0, ts0, i as nat, n as nat);
            }
        }
        stopped
    }

    /// Walks one statement: its expressions in order, then the statements
    /// nested in it.
    pub fn visit_statement(&mut self, t: &mut Statement) -> (stopped: bool)
        ensures
            (final(self).visitor.state(), final(t)@, stopped) == walk_statement::<V>(
                old(self).visitor.state(),
                old(t)@,
            ),
        decreases old(t)@, 0nat,
    {
        let r = self.visitor.visit_statement(t);
        match r {
            VisitResult::Exit => true,
            VisitResult::SkipChildren => false,
            VisitResult::VisitChildren => {
                proof {
                    lemma_expression_views(t.expressions@);
                    lemma_statement_views(t.statements@);
                }
                if self.visit_expressions(&mut t.expressions) {
                    true
                } else {
                    assert(decreases_to!(old(t)@ => old(t)@.statements));
                    self.visit_statements(&mut t.statements)
                }
            },
        }
    }

    /// Walks one function: the function itself, then its body.
    pub fn visit_function(&mut self, f: &mut Function) -> (stopped: bool)
        ensures
            (final(self).visitor.state(), final(f)@, stopped) == walk_function::<V>(
                old(self).visitor.state(),
                old(f)@,
            ),
    {
        let r = self.visitor.visit_function(f);
        match r {
            VisitResult::Exit => true,
            VisitResult::SkipChildren => false,
            VisitResult::VisitChildren => match &mut f.body {
                None => false,
                Some(b) => self.visit_statement(b),
            },
        }
    }

    /// Walks one circuit: the circuit itself, then its member functions.
    pub fn visit_circuit(&mut self, c: &mut Circuit) -> (stopped: bool)
        ensures
            (final(self).visitor.state(), final(c)@, stopped) == walk_circuit::<V>(
                old(self).visitor.state(),
                old(c)@,
            ),
    {
        let r = self.visitor.visit_circuit(c);
        match r {
            VisitResult::Exit => true,
            VisitResult::SkipChildren => false,
            VisitResult::VisitChildren => {
                let ghost s0 = self.visitor.state();
                let ghost ms0 = member_views(c.members@);
                let n = c.members.len();
                let mut i: usize = 0;
                let mut stopped = false;
                while i < n && !stopped
                    invariant
                        i <= n,
                        n == c.members@.len(),
                        n == ms0.len(),
                        c.name == old(c).name,
                        c.span == old(c).span,
                        c.annotations == old(c).annotations,
                        (self.visitor.state(), member_views(c.members@), stopped)
                            == walk_members::<V>(s0, ms0, i as nat),
                        forall|j: int| i <= j < n ==> (#[trigger] c.members@[j])@ == ms0[j],
                    decreases n - i,
                {
                    let ghost before = c.members@;
                    stopped = match &mut c.members[i] {
                        CircuitMember::Variable(..) => false,
                        CircuitMember::Function(f) => self.visit_function(f),
                    };
                    proof {
                        assert(member_views(c.members@) =~= member_views(before).update(
                            i as int,
                            c.members@[i as int]@,
                        ));
                    }
                    i += 1;
                }
                proof {
                    if i < n {
                        lemma_members_stopped::<V>(s0, ms0, i as nat, n as nat);
                    }
                }
                stopped
            },
        }
    }

    /// Walks a program: the program itself, then its functions in order,
    /// then its circuits in order.
    pub fn visit_program(&mut self, p: &mut Program) -> (stopped: bool)
        ensures
            (final(self).visitor.state(), final(p)@, stopped) == walk_program::<V>(
                old(self).visitor.state(),
                old(p)@,
            ),
    {
        let r = self.visitor.visit_program(p);
        match r {
            VisitResult::Exit => true,
            VisitResult::SkipChildren => false,
            VisitResult::VisitChildren => {
                let ghost s0 = self.visitor.state();
                let ghost fs0 = function_views(p.functions@);
                let n = p.functions.len();
                let mut i: usize = 0;
                let mut stopped = false;
                while i < n && !stopped
                    invariant
                        i <= n,
                        n == p.functions@.len(),
                        n == fs0.len(),
                        p.name == old(p).name,
                        p.circuits == old(p).circuits,
                        (self.visitor.state(), function_views(p.functions@), stopped)
                            == walk_functions::<V>(s0, fs0, i as nat),
                        forall|j: int| i <= j < n ==> (#[trigger] p.functions@[j])@ == fs0[j],
                    decreases n - i,
                {
                    let ghost before = p.functions@;
                    stopped = self.visit_function(&mut p.functions[i]);
                    proof {
                        assert(function_views(p.functions@) =~= function_views(before).update(
                            i as int,
                            p.functions@[i as int]@,
                        ));
                    }
                    i += 1;
                }
                proof {
                    if i < n {
                        lemma_functions_stopped::<V>(s0, fs0, i as nat, n as nat);
                    }
                }
                if stopped {
                    return true;
                }
                let ghost s1 = self.visitor.state();
                let ghost cs0 = circuit_views(p.circuits@);
                let m = p.circuits.len();
                let mut k: usize = 0;
                while k < m && !stopped
                    invariant
                        k <= m,
                        m == p.circuits@.len(),
                        m == cs0.len(),
                        p.name == old(p).name,
                        function_views(p.functions@) == walk_functions::<V>(s0, fs0, n as nat).1,
                        (self.visitor.state(), circuit_views(p.circuits@), stopped)
                            == walk_circuits::<V>(s1, cs0, k as nat),
                        forall|j: int| k <= j < m ==> (#[trigger] p.circuits@[j])@ == cs0[j],
                    decreases m - k,
                {
                    let ghost before = p.circuits@;
                    stopped = self.visit_circuit(&mut p.circuits[k]);
                    proof {
                        assert(circuit_views(p.circuits@) =~= circuit_views(before).update(
                            k as int,
                            p.circuits@[k as int]@,
                        ));
                    }
                    k += 1;
                }
                proof {
                    if k < m {
                        lemma_circuits_stopped::<V>(s1, cs0, k as nat, m as nat);
                    }
                }
                stopped
            },
        }
    }
}

} // verus!
