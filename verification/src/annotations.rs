use vstd::prelude::*;
use crate::annotation::{has_annotation, Annotation};
use crate::diagnostics::FatalError;
use crate::graph::{
    Circuit, CircuitMemberView, CircuitView, Expression, ExpressionView, Function, FunctionView,
    Program, ProgramView, Statement, StatementView,
};
use crate::reducer::{
    rewrite_circuit, rewrite_circuits, rewrite_expression, rewrite_expressions, rewrite_function,
    rewrite_functions, rewrite_member, rewrite_members, rewrite_program, rewrite_statement,
    rewrite_statements, ReconstructingDirector, Reducer,
};

verus! {

/// The intrinsic that a `CoreFunction` annotation binds a function to: the
/// annotation's first argument, or the function's own name where the
/// annotation has no argument.
pub open spec fn core_name(name: Seq<char>, annotation: Annotation) -> Seq<char> {
    if annotation.arguments@.len() > 0 {
        annotation.arguments@[0]@
    } else {
        name
    }
}

/// The core mapping of a function after the first `n` of its annotations
/// have been handled in order: each `CoreFunction` among them sets it.
pub open spec fn mapping_after(
    initial: Option<Seq<char>>,
    name: Seq<char>,
    annotations: Seq<Annotation>,
    n: nat,
) -> Option<Seq<char>>
    decreases n,
{
    if n == 0 || n > annotations.len() {
        initial
    } else if annotations[n - 1].name.name@ == "CoreFunction"@ {
        Some(core_name(name, annotations[n - 1]))
    } else {
        mapping_after(initial, name, annotations, (n - 1) as nat)
    }
}

/// Whether a function is marked as constant after the first `n` of its
/// annotations have been handled: an `AlwaysConst` among them marks it.
pub open spec fn const_after(initial: bool, annotations: Seq<Annotation>, n: nat) -> bool
    decreases n,
{
    if n == 0 || n > annotations.len() {
        initial
    } else if annotations[n - 1].name.name@ == "AlwaysConst"@ {
        true
    } else {
        const_after(initial, annotations, (n - 1) as nat)
    }
}

/// A function with all its annotations handled. Annotations of other names
/// change nothing.
pub open spec fn resolved(f: FunctionView) -> FunctionView {
    FunctionView {
        core_mapping: mapping_after(
            f.core_mapping,
            f.name.name@,
            f.annotations@,
            f.annotations@.len(),
        ),
        always_const: const_after(f.always_const, f.annotations@, f.annotations@.len()),
        ..f
    }
}

/// A circuit member with its annotations handled, where it is a function.
pub open spec fn resolved_member(m: CircuitMemberView) -> CircuitMemberView {
    match m {
        CircuitMemberView::Variable(..) => m,
        CircuitMemberView::Function(f) => CircuitMemberView::Function(resolved(f)),
    }
}

/// A circuit in which every member function has its annotations handled.
pub open spec fn resolved_circuit(c: CircuitView) -> CircuitView {
    CircuitView { members: Seq::new(c.members.len(), |j: int| resolved_member(c.members[j])), ..c }
}

/// A program in which every function, free or member of a circuit, has
/// its annotations handled. Nothing else differs.
pub open spec fn resolved_program(p: ProgramView) -> ProgramView {
    ProgramView {
        functions: Seq::new(p.functions.len(), |j: int| resolved(p.functions[j])),
        circuits: Seq::new(p.circuits.len(), |j: int| resolved_circuit(p.circuits[j])),
        ..p
    }
}

/// Handles the annotation `AlwaysConst`.
pub struct AlwaysConst {}

impl AlwaysConst {
    /// Marks the function's result as a compile-time constant.
    pub fn resolve(function: &mut Function)
        ensures
            final(function)@ == (FunctionView { always_const: true, ..old(function)@ }),
    {
        function.always_const = true;
    }
}

/// Handles the annotation `CoreFunction`.
pub struct CoreFunction {}

impl CoreFunction {
    /// Binds the function to an intrinsic: the one that the annotation's
    /// first argument names, or the one of the function's own name.
    pub fn resolve(function: &mut Function, annotation: &Annotation)
        ensures
            final(function)@ == (FunctionView {
                core_mapping: Some(core_name(old(function).name.name@, *annotation)),
                ..old(function)@
            }),
    {
        let mapping = if annotation.arguments.len() > 0 {
            annotation.arguments[0].to_string()
        } else {
            function.name.name.to_string()
        };
        function.core_mapping = Some(mapping);
    }
}

/// Handles each annotation of the function, in order.
pub fn handle_annotations(function: &mut Function)
    ensures
        final(function)@ == resolved(old(function)@),
{
    let mut annotations: Vec<Annotation> = Vec::new();
    std::mem::swap(&mut function.annotations, &mut annotations);
    let ghost f0 = old(function)@;
    let mut i: usize = 0;
    while i < annotations.len()
        invariant
            i <= annotations.len(),
            annotations == old(function).annotations,
            f0 == old(function)@,
            function@ == (FunctionView {
                annotations: function.annotations,
                core_mapping: mapping_after(
                    f0.core_mapping,
                    f0.name.name@,
                    annotations@,
                    i as nat,
                ),
                always_const: const_after(f0.always_const, annotations@, i as nat),
                ..f0
            }),
        decreases annotations.len() - i,
    {
        proof {
            reveal_strlit("AlwaysConst");
            reveal_strlit("CoreFunction");
            assert("AlwaysConst"@.len() != "CoreFunction"@.len());
        }
        if annotations[i].name.name.is("AlwaysConst") {
            AlwaysConst::resolve(function);
        } else if annotations[i].name.name.is("CoreFunction") {
            CoreFunction::resolve(function, &annotations[i]);
        }
        i += 1;
    }
    std::mem::swap(&mut function.annotations, &mut annotations);
}

/// Interprets the annotations on the functions of a program.
pub struct AnnotationResolver {}

impl Reducer for AnnotationResolver {
    type State = ();

    open spec fn state(&self) -> () {
        ()
    }

    open spec fn expression_rule(s: (), e: ExpressionView) -> ((), ExpressionView) {
        (s, e)
    }

    open spec fn statement_rule(s: (), t: StatementView) -> ((), StatementView) {
        (s, t)
    }

    open spec fn function_rule(s: (), f: FunctionView) -> ((), FunctionView) {
        (s, resolved(f))
    }

    open spec fn member_function_rule(s: (), f: FunctionView) -> ((), FunctionView) {
        (s, resolved(f))
    }

    open spec fn circuit_rule(s: (), c: CircuitView) -> ((), CircuitView) {
        (s, c)
    }

    open spec fn program_rule(s: (), p: ProgramView) -> ((), ProgramView) {
        (s, p)
    }

    fn reduce_expression(&mut self, e: &mut Expression) {
    }

    fn reduce_statement(&mut self, t: &mut Statement) {
    }

    /// Handles the annotations of a function, whose body is in place.
    fn reduce_function(&mut self, f: &mut Function) {
        handle_annotations(f);
    }

    /// Handles the annotations of a member function.
    fn reduce_circuit_member_function(&mut self, f: &mut Function) {
        handle_annotations(f);
    }

    fn reduce_circuit(&mut self, c: &mut Circuit) {
    }

    fn reduce_program(&mut self, p: &mut Program) {
    }
}

/// Whether one of the first `n` annotations is named so.
spec fn named_among(annotations: Seq<Annotation>, name: Seq<char>, n: nat) -> bool
    decreases n,
{
    if n == 0 || n > annotations.len() {
        false
    } else {
        annotations[n - 1].name.name@ == name || named_among(annotations, name, (n - 1) as nat)
    }
}

/// Where no `CoreFunction` is among the first `n` annotations, the core
/// mapping stays; where one is, the mapping before them does not matter.
proof fn lemma_mapping_after(
    x: Option<Seq<char>>,
    y: Option<Seq<char>>,
    name: Seq<char>,
    annotations: Seq<Annotation>,
    n: nat,
)
    ensures
        !named_among(annotations, "CoreFunction"@, n) ==> mapping_after(x, name, annotations, n)
            == x,
        named_among(annotations, "CoreFunction"@, n) ==> mapping_after(x, name, annotations, n)
            == mapping_after(y, name, annotations, n),
    decreases n,
{
    if n == 0 || n > annotations.len() {
    } else {
        lemma_mapping_after(x, y, name, annotations, (n - 1) as nat);
    }
}

/// Where no `AlwaysConst` is among the first `n` annotations, the mark
/// stays; where one is, the mark before them does not matter.
proof fn lemma_const_after(x: bool, y: bool, annotations: Seq<Annotation>, n: nat)
    ensures
        !named_among(annotations, "AlwaysConst"@, n) ==> const_after(x, annotations, n) == x,
        named_among(annotations, "AlwaysConst"@, n) ==> const_after(x, annotations, n)
            == const_after(y, annotations, n),
    decreases n,
{
    if n == 0 || n > annotations.len() {
    } else {
        lemma_const_after(x, y, annotations, (n - 1) as nat);
    }
}

/// A function is marked as constant after its annotations are handled
/// exactly when it was marked before or carries `AlwaysConst`.
pub proof fn lemma_always_const_of_resolved(f: FunctionView)
    ensures
        resolved(f).always_const == (f.always_const || has_annotation(
            f.annotations@,
            "AlwaysConst"@,
        )),
{
    lemma_const_after_is_has(f.always_const, f.annotations@, f.annotations@.len());
}

/// The mark after the first `n` annotations: set before, or set by one of
/// them.
proof fn lemma_const_after_is_has(initial: bool, annotations: Seq<Annotation>, n: nat)
    requires
        n <= annotations.len(),
    ensures
        const_after(initial, annotations, n) == (initial || exists|i: int|
            0 <= i < n && (#[trigger] annotations[i]).name.name@ == "AlwaysConst"@),
    decreases n,
{
    if n > 0 {
        lemma_const_after_is_has(initial, annotations, (n - 1) as nat);
        if annotations[n - 1].name.name@ != "AlwaysConst"@ && !initial {
            if exists|i: int|
                0 <= i < n && (#[trigger] annotations[i]).name.name@ == "AlwaysConst"@ {
                let i = choose|i: int|
                    0 <= i < n && (#[trigger] annotations[i]).name.name@ == "AlwaysConst"@;
                assert(0 <= i < n - 1);
            }
        }
    }
}

/// The core mapping after the annotations are handled: the one that the
/// last `CoreFunction` among them names; without one, the mapping that the
/// function had. `last` is the place of that annotation, or -1 where the
/// function has none.
pub proof fn lemma_core_mapping_of_resolved(f: FunctionView, last: int)
    requires
        -1 <= last < f.annotations@.len(),
        last >= 0 ==> f.annotations@[last].name.name@ == "CoreFunction"@,
        forall|j: int|
            last < j < f.annotations@.len() ==> (#[trigger] f.annotations@[j]).name.name@
                != "CoreFunction"@,
    ensures
        resolved(f).core_mapping == if last == -1 {
            f.core_mapping
        } else {
            Some(core_name(f.name.name@, f.annotations@[last]))
        },
{
    lemma_mapping_after_last(
        f.core_mapping,
        f.name.name@,
        f.annotations@,
        f.annotations@.len(),
        last,
    );
}

/// The core mapping after the first `n` annotations, where `last` is the
/// place of the last `CoreFunction` among them, or -1 where there is none.
proof fn lemma_mapping_after_last(
    initial: Option<Seq<char>>,
    name: Seq<char>,
    annotations: Seq<Annotation>,
    n: nat,
    last: int,
)
    requires
        n <= annotations.len(),
        -1 <= last < n,
        last >= 0 ==> annotations[last].name.name@ == "CoreFunction"@,
        forall|j: int| last < j < n ==> (#[trigger] annotations[j]).name.name@ != "CoreFunction"@,
    ensures
        mapping_after(initial, name, annotations, n) == if last == -1 {
            initial
        } else {
            Some(core_name(name, annotations[last]))
        },
    decreases n,
{
    if n > 0 && last < n - 1 {
        assert(annotations[n - 1].name.name@ != "CoreFunction"@);
        lemma_mapping_after_last(initial, name, annotations, (n - 1) as nat, last);
    }
}

/// Handling the annotations of a function a second time changes nothing.
pub proof fn lemma_resolved_idempotent(f: FunctionView)
    ensures
        resolved(resolved(f)) == resolved(f),
{
    let once = resolved(f);
    lemma_mapping_after(
        once.core_mapping,
        f.core_mapping,
        f.name.name@,
        f.annotations@,
        f.annotations@.len(),
    );
    lemma_const_after(once.always_const, f.always_const, f.annotations@, f.annotations@.len());
}

/// The resolver leaves every expression as it is.
proof fn lemma_rewrite_expression(e: ExpressionView)
    ensures
        rewrite_expression::<AnnotationResolver>((), e) == ((), e),
    decreases e, 0nat,
{
    match e {
        ExpressionView::Constant { .. } => {},
        ExpressionView::Operation { parent, span, kind, outcome, operands } => {
            lemma_rewrite_expressions(operands, operands.len());
        },
    }
}

/// The resolver leaves every list of expressions as it is.
proof fn lemma_rewrite_expressions(es: Seq<ExpressionView>, n: nat)
    ensures
        rewrite_expressions::<AnnotationResolver>((), es, n) == ((), es),
    decreases es, n,
{
    if n == 0 || n > es.len() {
    } else {
        lemma_rewrite_expressions(es, (n - 1) as nat);
        lemma_rewrite_expression(es[n - 1]);
        assert(es.update(n - 1, es[n - 1]) =~= es);
    }
}

/// The resolver leaves every statement as it is.
proof fn lemma_rewrite_statement(t: StatementView)
    ensures
        rewrite_statement::<AnnotationResolver>((), t) == ((), t),
    decreases t, 0nat,
{
    lemma_rewrite_expressions(t.expressions, t.expressions.len());
    lemma_rewrite_statements(t.statements, t.statements.len());
}

/// The resolver leaves every list of statements as it is.
proof fn lemma_rewrite_statements(ts: Seq<StatementView>, n: nat)
    ensures
        rewrite_statements::<AnnotationResolver>((), ts, n) == ((), ts),
    decreases ts, n,
{
    if n == 0 || n > ts.len() {
    } else {
        lemma_rewrite_statements(ts, (n - 1) as nat);
        lemma_rewrite_statement(ts[n - 1]);
        assert(ts.update(n - 1, ts[n - 1]) =~= ts);
    }
}

/// The resolver, driven over a function, handles its annotations.
proof fn lemma_rewrite_function(f: FunctionView)
    ensures
        rewrite_function::<AnnotationResolver>((), f) == ((), resolved(f)),
{
    match f.body {
        None => {},
        Some(b) => {
            lemma_rewrite_statement(b);
        },
    }
}

/// The same for the first `n` functions of a list.
proof fn lemma_rewrite_functions(fs: Seq<FunctionView>, n: nat)
    requires
        n <= fs.len(),
    ensures
        rewrite_functions::<AnnotationResolver>((), fs, n) == (
            (),
            Seq::new(fs.len(), |j: int| if j < n { resolved(fs[j]) } else { fs[j] }),
        ),
    decreases n,
{
    if n == 0 {
        assert(fs =~= Seq::new(fs.len(), |j: int| if j < n { resolved(fs[j]) } else { fs[j] }));
    } else {
        lemma_rewrite_functions(fs, (n - 1) as nat);
        lemma_rewrite_function(fs[n - 1]);
        assert(Seq::new(fs.len(), |j: int| if j < n - 1 { resolved(fs[j]) } else { fs[j] }).update(
            n - 1,
            resolved(fs[n - 1]),
        ) =~= Seq::new(fs.len(), |j: int| if j < n { resolved(fs[j]) } else { fs[j] }));
    }
}

/// The resolver, driven over a member of a circuit, handles the
/// annotations of a function; that it does so twice changes nothing.
proof fn lemma_rewrite_member(m: CircuitMemberView)
    ensures
        rewrite_member::<AnnotationResolver>((), m) == ((), resolved_member(m)),
{
    match m {
        CircuitMemberView::Variable(..) => {},
        CircuitMemberView::Function(f) => {
            lemma_rewrite_function(f);
            lemma_resolved_idempotent(f);
        },
    }
}

/// The same for the first `n` members of a circuit.
proof fn lemma_rewrite_members(ms: Seq<CircuitMemberView>, n: nat)
    requires
        n <= ms.len(),
    ensures
        rewrite_members::<AnnotationResolver>((), ms, n) == (
            (),
            Seq::new(ms.len(), |j: int| if j < n { resolved_member(ms[j]) } else { ms[j] }),
        ),
    decreases n,
{
    if n == 0 {
        assert(ms =~= Seq::new(
            ms.len(),
            |j: int| if j < n { resolved_member(ms[j]) } else { ms[j] },
        ));
    } else {
        lemma_rewrite_members(ms, (n - 1) as nat);
        lemma_rewrite_member(ms[n - 1]);
        assert(Seq::new(
            ms.len(),
            |j: int| if j < n - 1 { resolved_member(ms[j]) } else { ms[j] },
        ).update(n - 1, resolved_member(ms[n - 1])) =~= Seq::new(
            ms.len(),
            |j: int| if j < n { resolved_member(ms[j]) } else { ms[j] },
        ));
    }
}

/// The same for a circuit.
proof fn lemma_rewrite_circuit(c: CircuitView)
    ensures
        rewrite_circuit::<AnnotationResolver>((), c) == ((), resolved_circuit(c)),
{
    lemma_rewrite_members(c.members, c.members.len());
    assert(Seq::new(
        c.members.len(),
        |j: int| if j < c.members.len() { resolved_member(c.members[j]) } else { c.members[j] },
    ) =~= Seq::new(c.members.len(), |j: int| resolved_member(c.members[j])));
}

/// The same for the first `n` circuits of a list.
proof fn lemma_rewrite_circuits(cs: Seq<CircuitView>, n: nat)
    requires
        n <= cs.len(),
    ensures
        rewrite_circuits::<AnnotationResolver>((), cs, n) == (
            (),
            Seq::new(cs.len(), |j: int| if j < n { resolved_circuit(cs[j]) } else { cs[j] }),
        ),
    decreases n,
{
    if n == 0 {
        assert(cs =~= Seq::new(
            cs.len(),
            |j: int| if j < n { resolved_circuit(cs[j]) } else { cs[j] },
        ));
    } else {
        lemma_rewrite_circuits(cs, (n - 1) as nat);
        lemma_rewrite_circuit(cs[n - 1]);
        assert(Seq::new(
            cs.len(),
            |j: int| if j < n - 1 { resolved_circuit(cs[j]) } else { cs[j] },
        ).update(n - 1, resolved_circuit(cs[n - 1])) =~= Seq::new(
            cs.len(),
            |j: int| if j < n { resolved_circuit(cs[j]) } else { cs[j] },
        ));
    }
}

/// The resolver, driven over a program, gives the program with the
/// annotations of every function handled.
pub proof fn lemma_rewrite_program(p: ProgramView)
    ensures
        rewrite_program::<AnnotationResolver>((), p) == ((), resolved_program(p)),
{
    lemma_rewrite_functions(p.functions, p.functions.len());
    lemma_rewrite_circuits(p.circuits, p.circuits.len());
    assert(Seq::new(
        p.functions.len(),
        |j: int| if j < p.functions.len() { resolved(p.functions[j]) } else { p.functions[j] },
    ) =~= Seq::new(p.functions.len(), |j: int| resolved(p.functions[j])));
    assert(Seq::new(
        p.circuits.len(),
        |j: int|
            if j < p.circuits.len() {
                resolved_circuit(p.circuits[j])
            } else {
                p.circuits[j]
            },
    ) =~= Seq::new(p.circuits.len(), |j: int| resolved_circuit(p.circuits[j])));
}

impl AnnotationResolver {
    /// Handles the annotations of every function of the program, free or
    /// member of a circuit. Nothing else in the program changes.
    pub fn do_pass(program: Program) -> (r: Result<Program, FatalError>)
        ensures
            r matches Ok(done) && done@ == resolved_program(program@),
    {
        let mut program = program;
        let ghost given = program@;
        let pass = AnnotationResolver {  };
        let mut director = ReconstructingDirector::new(pass);
        director.reduce_program(&mut program);
        proof {
            lemma_rewrite_program(given);
        }
        Ok(program)
    }
}

} // verus!
