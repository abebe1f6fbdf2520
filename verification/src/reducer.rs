use vstd::prelude::*;
use crate::graph::{
    circuit_views, expression_views, function_views, lemma_expression_views,
    lemma_statement_views, member_views, statement_views, Circuit, CircuitMember,
    CircuitMemberView, CircuitView, Expression, ExpressionView, Function, FunctionView, Program,
    ProgramView, Statement, StatementView,
};

verus! {

/// What a rewriting pass does at each kind of node. The director goes
/// through the graph from the leaves up: when a rule sees a node, everything
/// below the node has been rewritten already. A rule leaves in the node's
/// place what is to stand there.
pub trait Reducer {
    /// What the reducer has gathered so far, as a mathematical value.
    type State;

    /// The state that the reducer is in.
    spec fn state(&self) -> Self::State;

    /// For an expression whose operands are rewritten: the new state and
    /// what stands in its place.
    spec fn expression_rule(s: Self::State, e: ExpressionView) -> (Self::State, ExpressionView);

    /// For a statement whose expressions and statements are rewritten.
    spec fn statement_rule(s: Self::State, t: StatementView) -> (Self::State, StatementView);

    /// For a function whose body is rewritten.
    spec fn function_rule(s: Self::State, f: FunctionView) -> (Self::State, FunctionView);

    /// The rule for a function that is a member of a circuit. It sees the
    /// function after the rule for functions has been applied to it.
    spec fn member_function_rule(s: Self::State, f: FunctionView) -> (Self::State, FunctionView);

    /// For a circuit whose members are rewritten.
    spec fn circuit_rule(s: Self::State, c: CircuitView) -> (Self::State, CircuitView);

    /// For a program whose functions and circuits are rewritten.
    spec fn program_rule(s: Self::State, p: ProgramView) -> (Self::State, ProgramView);

    /// Applies the rule for expressions to the expression in the place.
    fn reduce_expression(&mut self, e: &mut Expression)
        ensures
            (final(self).state(), final(e)@) == Self::expression_rule(old(self).state(), old(e)@),
    ;

    /// Applies the rule for statements to the statement in the place.
    fn reduce_statement(&mut self, t: &mut Statement)
        ensures
            (final(self).state(), final(t)@) == Self::statement_rule(old(self).state(), old(t)@),
    ;

    /// Applies the rule for functions to the function in the place.
    fn reduce_function(&mut self, f: &mut Function)
        ensures
            (final(self).state(), final(f)@) == Self::function_rule(old(self).state(), old(f)@),
    ;

    /// Applies the rule for member functions to the function in the place.
    fn reduce_circuit_member_function(&mut self, f: &mut Function)
        ensures
            (final(self).state(), final(f)@) == Self::member_function_rule(
                old(self).state(),
                old(f)@,
            ),
    ;

    /// Applies the rule for circuits to the circuit in the place.
    fn reduce_circuit(&mut self, c: &mut Circuit)
        ensures
            (final(self).state(), final(c)@) == Self::circuit_rule(old(self).state(), old(c)@),
    ;

    /// Applies the rule for programs to the program in the place.
    fn reduce_program(&mut self, p: &mut Program)
        ensures
            (final(self).state(), final(p)@) == Self::program_rule(old(self).state(), old(p)@),
    ;
}

/// An expression rewritten from the leaves up: its operands first, in
/// order, then the expression itself.
pub open spec fn rewrite_expression<R: Reducer>(s: R::State, e: ExpressionView) -> (
    R::State,
    ExpressionView,
)
    decreases e, 0nat,
{
    match e {
        ExpressionView::Constant { .. } => R::expression_rule(s, e),
        ExpressionView::Operation { parent, span, kind, outcome, operands } => {
            let (s1, done) = rewrite_expressions::<R>(s, operands, operands.len());
            R::expression_rule(
                s1,
                ExpressionView::Operation { parent, span, kind, outcome, operands: done },
            )
        },
    }
}

/// A list with its first `n` expressions rewritten, in order.
pub open spec fn rewrite_expressions<R: Reducer>(s: R::State, es: Seq<ExpressionView>, n: nat) -> (
    R::State,
    Seq<ExpressionView>,
)
    decreases es, n,
{
    if n == 0 || n > es.len() {
        (s, es)
    } else {
        let (s1, done) = rewrite_expressions::<R>(s, es, (n - 1) as nat);
        let (s2, e2) = rewrite_expression::<R>(s1, es[n - 1]);
        (s2, done.update(n - 1, e2))
    }
}

/// A statement rewritten from the leaves up: its expressions, then the
/// statements nested in it, then the statement itself.
pub open spec fn rewrite_statement<R: Reducer>(s: R::State, t: StatementView) -> (
    R::State,
    StatementView,
)
    decreases t, 0nat,
{
    let (s1, es) = rewrite_expressions::<R>(s, t.expressions, t.expressions.len());
    let (s2, ts) = rewrite_statements::<R>(s1, t.statements, t.statements.len());
    R::statement_rule(s2, StatementView { expressions: es, statements: ts, ..t })
}

/// A list with its first `n` statements rewritten, in order.
pub open spec fn rewrite_statements<R: Reducer>(s: R::State, ts: Seq<StatementView>, n: nat) -> (
    R::State,
    Seq<StatementView>,
)
    decreases ts, n,
{
    if n == 0 || n > ts.len() {
        (s, ts)
    } else {
        let (s1, done) = rewrite_statements::<R>(s, ts, (n - 1) as nat);
        let (s2, t2) = rewrite_statement::<R>(s1, ts[n - 1]);
        (s2, done.update(n - 1, t2))
    }
}

/// A function rewritten: its body first, then the function itself, which
/// by then holds the rewritten body.
pub open spec fn rewrite_function<R: Reducer>(s: R::State, f: FunctionView) -> (
    R::State,
    FunctionView,
) {
    match f.body {
        None => R::function_rule(s, f),
        Some(b) => {
            let (s1, b1) = rewrite_statement::<R>(s, b);
            R::function_rule(s1, FunctionView { body: Some(b1), ..f })
        },
    }
}

/// A list with its first `n` functions rewritten, in order.
pub open spec fn rewrite_functions<R: Reducer>(s: R::State, fs: Seq<FunctionView>, n: nat) -> (
    R::State,
    Seq<FunctionView>,
)
    decreases n,
{
    if n == 0 || n > fs.len() {
        (s, fs)
    } else {
        let (s1, done) = rewrite_functions::<R>(s, fs, (n - 1) as nat);
        let (s2, f2) = rewrite_function::<R>(s1, fs[n - 1]);
        (s2, done.update(n - 1, f2))
    }
}

/// A member of a circuit rewritten: a function as any function and then by
/// the rule for member functions; a variable stays.
pub open spec fn rewrite_member<R: Reducer>(s: R::State, m: CircuitMemberView) -> (
    R::State,
    CircuitMemberView,
) {
    match m {
        CircuitMemberView::Variable(..) => (s, m),
        CircuitMemberView::Function(f) => {
            let (s1, f1) = rewrite_function::<R>(s, f);
            let (s2, f2) = R::member_function_rule(s1, f1);
            (s2, CircuitMemberView::Function(f2))
        },
    }
}

/// The members of a circuit with the first `n` rewritten, in order.
pub open spec fn rewrite_members<R: Reducer>(s: R::State, ms: Seq<CircuitMemberView>, n: nat) -> (
    R::State,
    Seq<CircuitMemberView>,
)
    decreases n,
{
    if n == 0 || n > ms.len() {
        (s, ms)
    } else {
        let (s1, done) = rewrite_members::<R>(s, ms, (n - 1) as nat);
        let (s2, m2) = rewrite_member::<R>(s1, ms[n - 1]);
        (s2, done.update(n - 1, m2))
    }
}

/// A circuit rewritten: its members in order, then the circuit itself.
pub open spec fn rewrite_circuit<R: Reducer>(s: R::State, c: CircuitView) -> (
    R::State,
    CircuitView,
) {
    let (s1, ms) = rewrite_members::<R>(s, c.members, c.members.len());
    R::circuit_rule(s1, CircuitView { members: ms, ..c })
}

/// A list with its first `n` circuits rewritten, in order.
pub open spec fn rewrite_circuits<R: Reducer>(s: R::State, cs: Seq<CircuitView>, n: nat) -> (
    R::State,
    Seq<CircuitView>,
)
    decreases n,
{
    if n == 0 || n > cs.len() {
        (s, cs)
    } else {
        let (s1, done) = rewrite_circuits::<R>(s, cs, (n - 1) as nat);
        let (s2, c2) = rewrite_circuit::<R>(s1, cs[n - 1]);
        (s2, done.update(n - 1, c2))
    }
}

/// A program rewritten: its functions, then its circuits, then the program.
pub open spec fn rewrite_program<R: Reducer>(s: R::State, p: ProgramView) -> (
    R::State,
    ProgramView,
) {
    let (s1, fs) = rewrite_functions::<R>(s, p.functions, p.functions.len());
    let (s2, cs) = rewrite_circuits::<R>(s1, p.circuits, p.circuits.len());
    R::program_rule(s2, ProgramView { functions: fs, circuits: cs, ..p })
}

/// Drives a reducer over a graph, children before parents.
pub struct ReconstructingDirector<R: Reducer> {
    pub reducer: R,
}

impl<R: Reducer> ReconstructingDirector<R> {
    /// A director that drives the given reducer.
    pub fn new(reducer: R) -> (r: Self)
        ensures
            r.reducer == reducer,
    {
        ReconstructingDirector { reducer }
    }

    /// Hands the reducer back.
    pub fn reducer(self) -> (r: R)
        ensures
            r == self.reducer,
    {
        self.reducer
    }

    /// Rewrites the expressions of a list in order.
    fn reduce_expressions(&mut self, es: &mut Vec<Expression>)
        ensures
            (final(self).reducer.state(), expression_views(final(es)@)) == rewrite_expressions::<
                R,
            >(old(self).reducer.state(), expression_views(old(es)@), old(es)@.len()),
        decreases expression_views(old(es)@), 0nat,
    {
        let ghost s0 = self.reducer.state();
        let ghost es0 = expression_views(es@);
        proof {
            lemma_expression_views(es@);
        }
        let n = es.len();
        let mut i: usize = 0;
        while i < n
            invariant
                i <= n,
                n == es@.len(),
                n == es0.len(),
                es0 == expression_views(old(es)@),
                (self.reducer.state(), expression_views(es@)) == rewrite_expressions::<R>(
                    s0,
                    es0,
                    i as nat,
                ),
                forall|j: int| i <= j < n ==> (#[trigger] es@[j])@ == es0[j],
            decreases n - i,
        {
            let ghost before = es@;
            self.reduce_expression(&mut es[i]);
            proof {
                lemma_expression_views(before);
                lemma_expression_views(es@);
                assert(expression_views(es@) =~= expression_views(before).update(
                    i as int,
                    es@[i as int]@,
                ));
            }
            i += 1;
        }
    }

    /// Rewrites one expression and everything below it.
    pub fn reduce_expression(&mut self, e: &mut Expression)
        ensures
            (final(self).reducer.state(), final(e)@) == rewrite_expression::<R>(
                old(self).reducer.state(),
                old(e)@,
            ),
        decreases old(e)@, 0nat,
    {
        match e {
            Expression::Constant(_) => {},
            Expression::Operation(o) => {
                proof {
                    lemma_expression_views(o.operands@);
                }
                assert(old(e)@->Operation_operands == expression_views(o.operands@));
                assert(decreases_to!(old(e)@ => old(e)@->Operation_operands));
                self.reduce_expressions(&mut o.operands);
                assert(Expression::Operation(*o)@->Operation_operands == expression_views(
                    o.operands@,
                ));
            },
        }
        self.reducer.reduce_expression(e);
    }

    /// Rewrites the statements of a list in order.
    fn reduce_statements(&mut self, ts: &mut Vec<Statement>)
        ensures
            (final(self).reducer.state(), statement_views(final(ts)@)) == rewrite_statements::<R>(
                old(self).reducer.state(),
                statement_views(old(ts)@),
                old(ts)@.len(),
            ),
        decreases statement_views(old(ts)@), 0nat,
    {
        let ghost s0 = self.reducer.state();
        let ghost ts0 = statement_views(ts@);
        proof {
            lemma_statement_views(ts@);
        }
        let n = ts.len();
        let mut i: usize = 0;
        while i < n
            invariant
                i <= n,
                n == ts@.len(),
                n == ts0.len(),
                ts0 == statement_views(old(ts)@),
                (self.reducer.state(), statement_views(ts@)) == rewrite_statements::<R>(
                    s0,
                    ts0,
                    i as nat,
                ),
                forall|j: int| i <= j < n ==> (#[trigger] ts@[j])@ == ts0[j],
            decreases n - i,
        {
            let ghost before = ts@;
            self.reduce_statement(&mut ts[i]);
            proof {
                lemma_statement_views(before);
                lemma_statement_views(ts@);
                assert(statement_views(ts@) =~= statement_views(before).update(
                    i as int,
                    ts@[i as int]@,
                ));
            }
            i += 1;
        }
    }

    /// Rewrites one statement and everything below it.
    pub fn reduce_statement(&mut self, t: &mut Statement)
        ensures
            (final(self).reducer.state(), final(t)@) == rewrite_statement::<R>(
                old(self).reducer.state(),
                old(t)@,
            ),
        decreases old(t)@, 0nat,
    {
        proof {
            lemma_expression_views(t.expressions@);
            lemma_statement_views(t.statements@);
        }
        self.reduce_expressions(&mut t.expressions);
        assert(decreases_to!(old(t)@ => old(t)@.statements));
        self.reduce_statements(&mut t.statements);
        self.reducer.reduce_statement(t);
    }

    /// Rewrites one function: its body, then the function.
    pub fn reduce_function(&mut self, f: &mut Function)
        ensures
            (final(self).reducer.state(), final(f)@) == rewrite_function::<R>(
                old(self).reducer.state(),
                old(f)@,
            ),
    {
        match &mut f.body {
            None => {},
            Some(b) => {
                self.reduce_statement(b);
            },
        }
        self.reducer.reduce_function(f);
    }

    /// Rewrites one circuit: its members in order, then the circuit.
    pub fn reduce_circuit(&mut self, c: &mut Circuit)
        ensures
            (final(self).reducer.state(), final(c)@) == rewrite_circuit::<R>(
                old(self).reducer.state(),
                old(c)@,
            ),
    {
        let ghost s0 = self.reducer.state();
        let ghost ms0 = member_views(c.members@);
        let n = c.members.len();
        let mut i: usize = 0;
        while i < n
            invariant
                i <= n,
                n == c.members@.len(),
                n == ms0.len(),
                c.name == old(c).name,
                c.span == old(c).span,
                c.annotations == old(c).annotations,
                (self.reducer.state(), member_views(c.members@)) == rewrite_members::<R>(
                    s0,
                    ms0,
                    i as nat,
                ),
                forall|j: int| i <= j < n ==> (#[trigger] c.members@[j])@ == ms0[j],
            decreases n - i,
        {
            let ghost before = c.members@;
            match &mut c.members[i] {
                CircuitMember::Variable(..) => {},
                CircuitMember::Function(f) => {
                    self.reduce_function(f);
                    self.reducer.reduce_circuit_member_function(f);
                },
            }
            proof {
                assert(member_views(c.members@) =~= member_views(before).update(
                    i as int,
                    c.members@[i as int]@,
                ));
            }
            i += 1;
        }
        self.reducer.reduce_circuit(c);
    }

    /// Rewrites a program: its functions in order, its circuits in order,
    /// then the program.
    pub fn reduce_program(&mut self, p: &mut Program)
        ensures
            (final(self).reducer.state(), final(p)@) == rewrite_program::<R>(
                old(self).reducer.state(),
                old(p)@,
            ),
    {
        let ghost s0 = self.reducer.state();
        let ghost fs0 = function_views(p.functions@);
        let n = p.functions.len();
        let mut i: usize = 0;
        while i < n
            invariant
                i <= n,
                n == p.functions@.len(),
                n == fs0.len(),
                p.name == old(p).name,
                p.circuits == old(p).circuits,
                (self.reducer.state(), function_views(p.functions@)) == rewrite_functions::<R>(
                    s0,
                    fs0,
                    i as nat,
                ),
                forall|j: int| i <= j < n ==> (#[trigger] p.functions@[j])@ == fs0[j],
            decreases n - i,
        {
            let ghost before = p.functions@;
            self.reduce_function(&mut p.functions[i]);
            proof {
                assert(function_views(p.functions@) =~= function_views(before).update(
                    i as int,
                    p.functions@[i as int]@,
                ));
            }
            i += 1;
        }
        let ghost s1 = self.reducer.state();
        let ghost cs0 = circuit_views(p.circuits@);
        let m = p.circuits.len();
        let mut k: usize = 0;
        while k < m
            invariant
                k <= m,
                m == p.circuits@.len(),
                m == cs0.len(),
                p.name == old(p).name,
                function_views(p.functions@) == rewrite_functions::<R>(s0, fs0, n as nat).1,
                (self.reducer.state(), circuit_views(p.circuits@)) == rewrite_circuits::<R>(
                    s1,
                    cs0,
                    k as nat,
                ),
                forall|j: int| k <= j < m ==> (#[trigger] p.circuits@[j])@ == cs0[j],
            decreases m - k,
        {
            let ghost before = p.circuits@;
            self.reduce_circuit(&mut p.circuits[k]);
            proof {
                assert(circuit_views(p.circuits@) =~= circuit_views(before).update(
                    k as int,
                    p.circuits@[k as int]@,
                ));
            }
            k += 1;
        }
        self.reducer.reduce_program(p);
    }
}

} // verus!
