use vstd::prelude::*;
use crate::annotation::{contains_annotation, has_annotation, Annotation};
use crate::diagnostics::{repeated, Diagnostic, DiagnosticSink, FatalError};
use crate::graph::{
    circuit_views, Argument, Circuit, CircuitMemberView, CircuitView, Expression,
    ExpressionView, Function, FunctionView, Program, ProgramView, Statement, StatementView,
};
use crate::network::NetworkProfile;
use crate::span::Span;
use crate::types::{
    record_count, record_count_upto, unsized_record_arrays, unsized_record_arrays_upto, Type,
};
use crate::visitor::{
    walk_circuits, walk_functions, walk_members, walk_program, VisitResult, Visitor,
    VisitorDirector,
};

verus! {

/// A circuit is the record circuit when it is named `Record` and carries
/// the annotation `CoreCircuit`: the name alone does not make it one.
pub open spec fn is_record_circuit(name: Seq<char>, annotations: Seq<Annotation>) -> bool {
    name == "Record"@ && has_annotation(annotations, "CoreCircuit"@)
}

/// For each circuit of a list, whether it is the record circuit.
pub open spec fn record_table(circuits: Seq<CircuitView>) -> Seq<bool> {
    Seq::new(
        circuits.len(),
        |i: int| is_record_circuit(circuits[i].name.name@, circuits[i].annotations@),
    )
}

/// A count as the checker holds it: exact up to the largest `u128`.
pub open spec fn capped(n: nat) -> u128 {
    if n > u128::MAX {
        u128::MAX
    } else {
        n as u128
    }
}

/// The types of a list of arguments, in order.
pub open spec fn argument_types(arguments: Seq<Argument>) -> Seq<Type> {
    Seq::new(arguments.len(), |i: int| arguments[i].type_)
}

/// The span that findings about a function are attributed to.
pub open spec fn span_or_empty(span: Option<Span>) -> Span {
    match span {
        Some(s) => s,
        None => Span::empty(),
    }
}

/// The running count of transitions after one more.
pub open spec fn next_count(count: u64) -> u64 {
    if count < u64::MAX {
        (count + 1) as u64
    } else {
        count
    }
}

/// What the checker reports about one transition, in the order of the
/// checks: the cap on transitions, the arguments, the result.
pub open spec fn transition_report(
    profile: NetworkProfile,
    records: Seq<bool>,
    count: u64,
    f: FunctionView,
) -> Seq<Diagnostic> {
    let span = span_or_empty(f.span);
    let unsized_array = Diagnostic::RecordTypeInUnknownSizeArray { span };
    let types = argument_types(f.arguments@);
    let cap = if count >= profile.max_transitions {
        seq![
            Diagnostic::ExceededMaximumNumberOfTransitions {
                maximum: profile.max_transitions,
                span,
            },
        ]
    } else {
        Seq::empty()
    };
    let input = if record_count_upto(types, types.len(), records) > profile.max_input_records {
        seq![Diagnostic::InputIsAtMostNRecords { maximum: profile.max_input_records, span }]
    } else {
        Seq::empty()
    };
    let output = if record_count(f.output, records) > profile.max_output_records {
        seq![Diagnostic::OutputIsAtMostNRecords { maximum: profile.max_output_records, span }]
    } else {
        Seq::empty()
    };
    cap + repeated(unsized_array, unsized_record_arrays_upto(types, types.len(), records)) + input
        + repeated(unsized_array, unsized_record_arrays(f.output, records)) + output
}

/// A function that carries one of the two marks without the other.
pub open spec fn has_lone_mark(f: FunctionView) -> bool {
    has_annotation(f.annotations@, "transaction"@) != has_annotation(
        f.annotations@,
        "transition"@,
    )
}

/// A function that carries both marks.
pub open spec fn is_transition(f: FunctionView) -> bool {
    has_annotation(f.annotations@, "transaction"@) && has_annotation(
        f.annotations@,
        "transition"@,
    )
}

/// The error that a function with a lone mark ends the pass with.
pub open spec fn lone_mark_error(f: FunctionView) -> FatalError {
    if has_annotation(f.annotations@, "transaction"@) {
        FatalError::StandaloneTransaction { span: span_or_empty(f.span) }
    } else {
        FatalError::StandaloneTransition { span: span_or_empty(f.span) }
    }
}

/// How many of the first `n` functions of a list are transitions.
pub open spec fn transitions_among(fs: Seq<FunctionView>, n: nat) -> nat
    decreases n,
{
    if n == 0 || n > fs.len() {
        0
    } else {
        transitions_among(fs, (n - 1) as nat) + if is_transition(fs[n - 1]) {
            1nat
        } else {
            0nat
        }
    }
}

/// Whether some function of the program, free or member of a circuit,
/// carries a lone mark.
pub open spec fn program_has_lone_mark(p: ProgramView) -> bool {
    ||| exists|i: int| 0 <= i < p.functions.len() && has_lone_mark(#[trigger] p.functions[i])
    ||| exists|c: int, m: int|
        0 <= c < p.circuits.len() && 0 <= m < p.circuits[c].members.len() && member_has_lone_mark(
            #[trigger] p.circuits[c].members[m],
        )
}

/// Whether the member is a function that carries a lone mark.
pub open spec fn member_has_lone_mark(m: CircuitMemberView) -> bool {
    m matches CircuitMemberView::Function(f) && has_lone_mark(f)
}

/// What the checker knows in the middle of a program.
pub struct CheckerState {
    pub profile: NetworkProfile,
    pub records: Seq<bool>,
    /// The transitions seen so far.
    pub count: u64,
    pub diagnostics: Seq<Diagnostic>,
    pub fatal: Option<FatalError>,
}

/// What the checker does at one function. A function marked as a
/// transaction or as a transition must carry both marks, or the pass ends;
/// a function with both is checked and counted; any other is passed over.
/// No function's body is entered.
pub open spec fn check_function(s: CheckerState, f: FunctionView) -> (CheckerState, VisitResult) {
    if has_lone_mark(f) {
        (CheckerState { fatal: Some(lone_mark_error(f)), ..s }, VisitResult::Exit)
    } else if is_transition(f) {
        (
            CheckerState {
                count: next_count(s.count),
                diagnostics: s.diagnostics + transition_report(s.profile, s.records, s.count, f),
                ..s
            },
            VisitResult::SkipChildren,
        )
    } else {
        (s, VisitResult::SkipChildren)
    }
}

/// The checker over the first `n` functions of a list, in order: the state
/// after them, and whether a function ended the pass.
pub open spec fn check_functions(s: CheckerState, fs: Seq<FunctionView>, n: nat) -> (
    CheckerState,
    bool,
)
    decreases n,
{
    if n == 0 || n > fs.len() {
        (s, false)
    } else {
        let (s1, stopped) = check_functions(s, fs, (n - 1) as nat);
        if stopped {
            (s1, true)
        } else {
            let (s2, r) = check_function(s1, fs[n - 1]);
            (s2, r == VisitResult::Exit)
        }
    }
}

/// The checker over the first `n` members of a circuit: only the
/// functions among them are checked.
pub open spec fn check_members(s: CheckerState, ms: Seq<CircuitMemberView>, n: nat) -> (
    CheckerState,
    bool,
)
    decreases n,
{
    if n == 0 || n > ms.len() {
        (s, false)
    } else {
        let (s1, stopped) = check_members(s, ms, (n - 1) as nat);
        if stopped {
            (s1, true)
        } else {
            match ms[n - 1] {
                CircuitMemberView::Variable(..) => (s1, false),
                CircuitMemberView::Function(f) => {
                    let (s2, r) = check_function(s1, f);
                    (s2, r == VisitResult::Exit)
                },
            }
        }
    }
}

/// The checker over the first `n` circuits of a list.
pub open spec fn check_circuits(s: CheckerState, cs: Seq<CircuitView>, n: nat) -> (
    CheckerState,
    bool,
)
    decreases n,
{
    if n == 0 || n > cs.len() {
        (s, false)
    } else {
        let (s1, stopped) = check_circuits(s, cs, (n - 1) as nat);
        if stopped {
            (s1, true)
        } else {
            check_members(s1, cs[n - 1].members, cs[n - 1].members.len())
        }
    }
}

/// The checker over a whole program: its functions in order, then the
/// member functions of its circuits in order.
pub open spec fn check_program(s: CheckerState, p: ProgramView) -> (CheckerState, bool) {
    let (s1, stopped) = check_functions(s, p.functions, p.functions.len());
    if stopped {
        (s1, true)
    } else {
        check_circuits(s1, p.circuits, p.circuits.len())
    }
}

/// The state in which the checker starts on a program.
pub open spec fn initial_state(profile: NetworkProfile, circuits: Seq<CircuitView>) -> CheckerState {
    CheckerState {
        profile,
        records: record_table(circuits),
        count: 0,
        diagnostics: Seq::empty(),
        fatal: None,
    }
}

/// Checks that functions marked as transitions or transactions are well formed.
pub struct TransactionChecker {
    pub profile: NetworkProfile,
    /// For each circuit of the program, whether it is the record circuit.
    pub records: Vec<bool>,
    pub count: u64,
    pub sink: DiagnosticSink,
    pub fatal: Option<FatalError>,
}

/// Copies of one diagnostic, put one after the other, add up.
proof fn lemma_repeated_sum(d: Diagnostic, a: nat, b: nat)
    ensures
        repeated(d, a) + repeated(d, b) == repeated(d, a + b),
{
    assert(repeated(d, a) + repeated(d, b) =~= repeated(d, a + b));
}

/// A product of a length and a capped count, capped again, is the capped
/// product of the length and the count.
proof fn lemma_capped_product(length: u32, count: nat)
    ensures
        (length as nat) * (capped(count) as nat) <= u128::MAX ==> capped(length as nat * count) == (
        length as nat) * (capped(count) as nat),
        (length as nat) * (capped(count) as nat) > u128::MAX ==> capped(length as nat * count)
            == u128::MAX,
{
    let l = length as nat;
    if count > u128::MAX {
        if l > 0 {
            assert(l * count > u128::MAX) by (nonlinear_arith)
                requires
                    l >= 1,
                    count > u128::MAX,
            ;
            assert(l * (u128::MAX as nat) >= u128::MAX) by (nonlinear_arith)
                requires
                    l >= 1,
            ;
        } else {
            assert(l * count == 0) by (nonlinear_arith)
                requires
                    l == 0,
            ;
            assert(l * (u128::MAX as nat) == 0) by (nonlinear_arith)
                requires
                    l == 0,
            ;
        }
    }
}

impl Circuit {
    /// Whether this is the record circuit.
    pub fn is_record(&self) -> (r: bool)
        ensures
            r == is_record_circuit(self.name.name@, self.annotations@),
    {
        self.name.name.is("Record") && contains_annotation(&self.annotations, "CoreCircuit")
    }
}

impl TransactionChecker {
    /// What the checker knows, as a mathematical value.
    pub open spec fn state(&self) -> CheckerState {
        CheckerState {
            profile: self.profile,
            records: self.records@,
            count: self.count,
            diagnostics: self.sink@,
            fatal: self.fatal,
        }
    }

    /// A checker at the start of a program with the given circuits.
    pub fn new(profile: NetworkProfile, circuits: &Vec<Circuit>) -> (r: TransactionChecker)
        ensures
            r.state() == initial_state(profile, circuit_views(circuits@)),
    {
        let mut records: Vec<bool> = Vec::new();
        let mut i: usize = 0;
        while i < circuits.len()
            invariant
                i <= circuits.len(),
                records@.len() == i,
                forall|j: int|
                    0 <= j < i ==> records@[j] == is_record_circuit(
                        circuits@[j].name.name@,
                        circuits@[j].annotations@,
                    ),
            decreases circuits.len() - i,
        {
            records.push(circuits[i].is_record());
            i += 1;
        }
        assert(records@ =~= record_table(circuit_views(circuits@)));
        TransactionChecker { profile, records, count: 0, sink: DiagnosticSink::new(), fatal: None }
    }

    /// Counts the records in a type, up to the largest `u128`, and reports
    /// each array of unknown size in it that holds a record.
    pub fn count_record_types(&mut self, typ: &Type, span: Span) -> (n: u128)
        ensures
            n == capped(record_count(*typ, old(self).records@)),
            final(self).sink@ == old(self).sink@ + repeated(
                Diagnostic::RecordTypeInUnknownSizeArray { span },
                unsized_record_arrays(*typ, old(self).records@),
            ),
            final(self).profile == old(self).profile,
            final(self).records == old(self).records,
            final(self).count == old(self).count,
            final(self).fatal == old(self).fatal,
        decreases typ,
    {
        let ghost d = Diagnostic::RecordTypeInUnknownSizeArray { span };
        let ghost records = self.records@;
        proof {
            assert(self.sink@ + repeated(d, 0) =~= self.sink@);
        }
        match typ {
            Type::Circuit(index) => {
                if *index < self.records.len() && self.records[*index] {
                    1
                } else {
                    0
                }
            },
            Type::Tuple(parts) => {
                let mut total: u128 = 0;
                let mut i: usize = 0;
                while i < parts.len()
                    invariant
                        i <= parts.len(),
                        *typ == Type::Tuple(*parts),
                        total == capped(record_count_upto(parts@, i as nat, records)),
                        self.sink@ == old(self).sink@ + repeated(
                            d,
                            unsized_record_arrays_upto(parts@, i as nat, records),
                        ),
                        self.profile == old(self).profile,
                        self.records == old(self).records,
                        self.count == old(self).count,
                        self.fatal == old(self).fatal,
                        records == self.records@,
                        d == (Diagnostic::RecordTypeInUnknownSizeArray { span }),
                    decreases parts.len() - i,
                {
                    assert(decreases_to!(*typ => typ->Tuple_0));
                    assert(decreases_to!(*parts => parts[i as int]));
                    let c = self.count_record_types(&parts[i], span);
                    total = total.saturating_add(c);
                    proof {
                        lemma_repeated_sum(
                            d,
                            unsized_record_arrays_upto(parts@, i as nat, records),
                            unsized_record_arrays(parts@[i as int], records),
                        );
                        assert(self.sink@ =~= old(self).sink@ + repeated(
                            d,
                            unsized_record_arrays_upto(parts@, (i + 1) as nat, records),
                        ));
                    }
                    i += 1;
                }
                total
            },
            Type::Array(element, length) => {
                let c = self.count_record_types(element, span);
                proof {
                    lemma_capped_product(*length, record_count(**element, records));
                }
                match (*length as u128).checked_mul(c) {
                    Some(product) => product,
                    None => u128::MAX,
                }
            },
            Type::ArrayWithoutSize(element) => {
                let c = self.count_record_types(element, span);
                if c > 0 {
                    self.sink.emit(Diagnostic::RecordTypeInUnknownSizeArray { span });
                }
                proof {
                    lemma_repeated_sum(d, unsized_record_arrays(**element, records), 1);
                    assert(repeated(d, 1) =~= seq![d]);
                    assert(old(self).sink@ + repeated(d, unsized_record_arrays(**element, records))
                        + seq![d] =~= (old(self).sink@ + repeated(
                        d,
                        unsized_record_arrays(**element, records),
                    )).push(d));
                    assert(old(self).sink@ + repeated(d, unsized_record_arrays(**element, records))
                        + repeated(d, 1) =~= old(self).sink@ + (repeated(
                        d,
                        unsized_record_arrays(**element, records),
                    ) + repeated(d, 1)));
                }
                0
            },
            _ => 0,
        }
    }

    /// Counts the records in the types of a list of arguments together, as
    /// in a tuple of these types.
    fn count_input_records(&mut self, arguments: &Vec<Argument>, span: Span) -> (n: u128)
        ensures
            n == capped(
                record_count_upto(
                    argument_types(arguments@),
                    arguments@.len(),
                    old(self).records@,
                ),
            ),
            final(self).sink@ == old(self).sink@ + repeated(
                Diagnostic::RecordTypeInUnknownSizeArray { span },
                unsized_record_arrays_upto(
                    argument_types(arguments@),
                    arguments@.len(),
                    old(self).records@,
                ),
            ),
            final(self).profile == old(self).profile,
            final(self).records == old(self).records,
            final(self).count == old(self).count,
            final(self).fatal == old(self).fatal,
    {
        let ghost d = Diagnostic::RecordTypeInUnknownSizeArray { span };
        let ghost records = self.records@;
        let ghost types = argument_types(arguments@);
        proof {
            assert(self.sink@ + repeated(d, 0) =~= self.sink@);
        }
        let mut total: u128 = 0;
        let mut i: usize = 0;
        while i < arguments.len()
            invariant
                i <= arguments.len(),
                types == argument_types(arguments@),
                total == capped(record_count_upto(types, i as nat, records)),
                self.sink@ == old(self).sink@ + repeated(
                    d,
                    unsized_record_arrays_upto(types, i as nat, records),
                ),
                self.profile == old(self).profile,
                self.records == old(self).records,
                self.count == old(self).count,
                self.fatal == old(self).fatal,
                records == self.records@,
                d == (Diagnostic::RecordTypeInUnknownSizeArray { span }),
            decreases arguments.len() - i,
        {
            let c = self.count_record_types(&arguments[i].type_, span);
            total = total.saturating_add(c);
            proof {
                lemma_repeated_sum(
                    d,
                    unsized_record_arrays_upto(types, i as nat, records),
                    unsized_record_arrays(types[i as int], records),
                );
                assert(self.sink@ =~= old(self).sink@ + repeated(
                    d,
                    unsized_record_arrays_upto(types, (i + 1) as nat, records),
                ));
            }
            i += 1;
        }
        total
    }
}

impl Visitor for TransactionChecker {
    type State = CheckerState;

    open spec fn state(&self) -> CheckerState {
        TransactionChecker::state(self)
    }

    open spec fn expression_hook(s: CheckerState, e: ExpressionView) -> (
        CheckerState,
        ExpressionView,
        VisitResult,
    ) {
        (s, e, VisitResult::VisitChildren)
    }

    open spec fn statement_hook(s: CheckerState, t: StatementView) -> (CheckerState, VisitResult) {
        (s, VisitResult::VisitChildren)
    }

    open spec fn function_hook(s: CheckerState, f: FunctionView) -> (CheckerState, VisitResult) {
        check_function(s, f)
    }

    open spec fn circuit_hook(s: CheckerState, c: CircuitView) -> (CheckerState, VisitResult) {
        (s, VisitResult::VisitChildren)
    }

    open spec fn program_hook(s: CheckerState, p: ProgramView) -> (CheckerState, VisitResult) {
        (s, VisitResult::VisitChildren)
    }

    fn visit_expression(&mut self, e: &mut Expression) -> (r: VisitResult) {
        VisitResult::VisitChildren
    }

    fn visit_statement(&mut self, t: &Statement) -> (r: VisitResult) {
        VisitResult::VisitChildren
    }

    /// Checks one function and never asks for its body.
    fn visit_function(&mut self, f: &Function) -> (r: VisitResult) {
        let transaction = contains_annotation(&f.annotations, "transaction");
        let transition = contains_annotation(&f.annotations, "transition");
        let span = match f.span {
            Some(s) => s,
            None => Span::default(),
        };
        if transaction && !transition {
            self.fatal = Some(FatalError::StandaloneTransaction { span });
            return VisitResult::Exit;
        }
        if transition {
            if !transaction {
                self.fatal = Some(FatalError::StandaloneTransition { span });
                return VisitResult::Exit;
            }
            let ghost before = self.sink@;
            let ghost records = self.records@;
            let ghost types = argument_types(f.arguments@);
            let ghost unsized_array = Diagnostic::RecordTypeInUnknownSizeArray { span };
            if self.count >= self.profile.max_transitions as u64 {
                self.sink.emit(
                    Diagnostic::ExceededMaximumNumberOfTransitions {
                        maximum: self.profile.max_transitions,
                        span,
                    },
                );
            }
            let ghost after_cap = self.sink@;
            let input = self.count_input_records(&f.arguments, span);
            if input > self.profile.max_input_records as u128 {
                self.sink.emit(
                    Diagnostic::InputIsAtMostNRecords {
                        maximum: self.profile.max_input_records,
                        span,
                    },
                );
            }
            let ghost after_input = self.sink@;
            let output = self.count_record_types(&f.output, span);
            if output > self.profile.max_output_records as u128 {
                self.sink.emit(
                    Diagnostic::OutputIsAtMostNRecords {
                        maximum: self.profile.max_output_records,
                        span,
                    },
                );
            }
            proof {
                let report = transition_report(self.profile, records, self.count, f@);
                assert(self.sink@ =~= before + report);
            }
            if self.count < u64::MAX {
                self.count += 1;
            }
        }
        VisitResult::SkipChildren
    }

    fn visit_circuit(&mut self, c: &Circuit) -> (r: VisitResult) {
        VisitResult::VisitChildren
    }

    fn visit_program(&mut self, p: &Program) -> (r: VisitResult) {
        VisitResult::VisitChildren
    }
}

/// The walk of the checker over a list of functions leaves them as they
/// were and ends in the state that `check_functions` gives.
proof fn lemma_walk_functions(s: CheckerState, fs: Seq<FunctionView>, n: nat)
    ensures
        walk_functions::<TransactionChecker>(s, fs, n) == (
            check_functions(s, fs, n).0,
            fs,
            check_functions(s, fs, n).1,
        ),
    decreases n,
{
    if n == 0 || n > fs.len() {
    } else {
        lemma_walk_functions(s, fs, (n - 1) as nat);
        assert(fs.update(n - 1, fs[n - 1]) =~= fs);
    }
}

/// The same for the members of a circuit.
proof fn lemma_walk_members(s: CheckerState, ms: Seq<CircuitMemberView>, n: nat)
    ensures
        walk_members::<TransactionChecker>(s, ms, n) == (
            check_members(s, ms, n).0,
            ms,
            check_members(s, ms, n).1,
        ),
    decreases n,
{
    if n == 0 || n > ms.len() {
    } else {
        lemma_walk_members(s, ms, (n - 1) as nat);
        assert(ms.update(n - 1, ms[n - 1]) =~= ms);
    }
}

/// The same for a list of circuits.
proof fn lemma_walk_circuits(s: CheckerState, cs: Seq<CircuitView>, n: nat)
    ensures
        walk_circuits::<TransactionChecker>(s, cs, n) == (
            check_circuits(s, cs, n).0,
            cs,
            check_circuits(s, cs, n).1,
        ),
    decreases n,
{
    if n == 0 || n > cs.len() {
    } else {
        lemma_walk_circuits(s, cs, (n - 1) as nat);
        let s1 = check_circuits(s, cs, (n - 1) as nat).0;
        let c = cs[n - 1];
        lemma_walk_members(s1, c.members, c.members.len());
        assert(cs.update(n - 1, c) =~= cs);
    }
}

/// The walk of the checker over a program leaves the program as it was
/// and ends in the state that `check_program` gives.
pub proof fn lemma_walk_program(s: CheckerState, p: ProgramView)
    ensures
        walk_program::<TransactionChecker>(s, p) == (
            check_program(s, p).0,
            p,
            check_program(s, p).1,
        ),
{
    lemma_walk_functions(s, p.functions, p.functions.len());
    let s1 = check_functions(s, p.functions, p.functions.len()).0;
    lemma_walk_circuits(s1, p.circuits, p.circuits.len());
}

/// The pass ends at the first function of a list that carries a lone mark,
/// with the error for that function; where no function does, it goes
/// through the list and ends with no error.
pub proof fn lemma_check_functions_fatal(s: CheckerState, fs: Seq<FunctionView>, n: nat)
    requires
        n <= fs.len(),
        s.fatal is None,
    ensures
        check_functions(s, fs, n).1 == (exists|k: int|
            0 <= k < n && has_lone_mark(#[trigger] fs[k])),
        check_functions(s, fs, n).1 == (check_functions(s, fs, n).0.fatal is Some),
        check_functions(s, fs, n).1 ==> exists|k: int|
            0 <= k < n && has_lone_mark(#[trigger] fs[k]) && check_functions(s, fs, n).0.fatal
                == Some(lone_mark_error(fs[k])) && forall|j: int|
                0 <= j < k ==> !has_lone_mark(#[trigger] fs[j]),
    decreases n,
{
    if n > 0 {
        lemma_check_functions_fatal(s, fs, (n - 1) as nat);
        let (s1, stopped) = check_functions(s, fs, (n - 1) as nat);
        if stopped {
        } else {
            if has_lone_mark(fs[n - 1]) {
                assert(check_functions(s, fs, n).0.fatal == Some(lone_mark_error(fs[n - 1])));
            } else {
                assert forall|k: int| 0 <= k < n implies !has_lone_mark(#[trigger] fs[k]) by {
                    if k < n - 1 {
                    }
                }
            }
        }
    }
}

/// The pass ends among the members of a circuit exactly when one of them
/// is a function that carries a lone mark.
proof fn lemma_check_members_fatal(s: CheckerState, ms: Seq<CircuitMemberView>, n: nat)
    requires
        n <= ms.len(),
        s.fatal is None,
    ensures
        check_members(s, ms, n).1 == (exists|k: int|
            0 <= k < n && member_has_lone_mark(#[trigger] ms[k])),
        check_members(s, ms, n).1 == (check_members(s, ms, n).0.fatal is Some),
    decreases n,
{
    if n > 0 {
        lemma_check_members_fatal(s, ms, (n - 1) as nat);
        let (s1, stopped) = check_members(s, ms, (n - 1) as nat);
        if !stopped && !member_has_lone_mark(ms[n - 1]) {
            assert forall|k: int| 0 <= k < n implies !member_has_lone_mark(#[trigger] ms[k]) by {
                if k < n - 1 {
                }
            }
        }
    }
}

/// The same for a list of circuits.
proof fn lemma_check_circuits_fatal(s: CheckerState, cs: Seq<CircuitView>, n: nat)
    requires
        n <= cs.len(),
        s.fatal is None,
    ensures
        check_circuits(s, cs, n).1 == (exists|c: int, m: int|
            0 <= c < n && 0 <= m < cs[c].members.len() && member_has_lone_mark(
                #[trigger] cs[c].members[m],
            )),
        check_circuits(s, cs, n).1 == (check_circuits(s, cs, n).0.fatal is Some),
    decreases n,
{
    if n > 0 {
        lemma_check_circuits_fatal(s, cs, (n - 1) as nat);
        let (s1, stopped) = check_circuits(s, cs, (n - 1) as nat);
        if !stopped {
            let last = cs[n - 1].members;
            lemma_check_members_fatal(s1, last, last.len());
            if check_members(s1, last, last.len()).1 {
                let k = choose|k: int|
                    0 <= k < last.len() && member_has_lone_mark(#[trigger] last[k]);
                assert(member_has_lone_mark(cs[n - 1].members[k]));
            } else {
                assert forall|c: int, m: int|
                    0 <= c < n && 0 <= m < cs[c].members.len() implies !member_has_lone_mark(
                    #[trigger] cs[c].members[m],
                ) by {
                    if c < n - 1 {
                    } else {
                        assert(!member_has_lone_mark(last[m]));
                    }
                }
            }
        } else {
            let (c, m) = choose|c: int, m: int|
                0 <= c < n - 1 && 0 <= m < cs[c].members.len() && member_has_lone_mark(
                    #[trigger] cs[c].members[m],
                );
            assert(member_has_lone_mark(cs[c].members[m]));
        }
    }
}

/// The pass over a program ends with an error exactly when some function
/// of the program carries a lone mark.
pub proof fn lemma_check_program_fatal(s: CheckerState, p: ProgramView)
    requires
        s.fatal is None,
    ensures
        check_program(s, p).0.fatal is Some == program_has_lone_mark(p),
        check_program(s, p).1 == program_has_lone_mark(p),
{
    lemma_check_functions_fatal(s, p.functions, p.functions.len());
    let (s1, stopped) = check_functions(s, p.functions, p.functions.len());
    if !stopped {
        lemma_check_circuits_fatal(s1, p.circuits, p.circuits.len());
    }
}

/// The running count is the number of transitions gone through, as long
/// as the pass has not ended and the count fits.
pub proof fn lemma_count_is_transitions(s: CheckerState, fs: Seq<FunctionView>, n: nat)
    requires
        n <= fs.len(),
        !check_functions(s, fs, n).1,
        s.count + transitions_among(fs, n) <= u64::MAX,
    ensures
        check_functions(s, fs, n).0.count == s.count + transitions_among(fs, n),
    decreases n,
{
    if n > 0 {
        lemma_count_is_transitions(s, fs, (n - 1) as nat);
    }
}

/// Whether `a` stands unchanged at the start of `b`.
pub open spec fn starts_with(b: Seq<Diagnostic>, a: Seq<Diagnostic>) -> bool {
    a.len() <= b.len() && b.subrange(0, a.len() as int) == a
}

/// Findings stay in the order of the program: what has been reported
/// after `i` functions stands unchanged at the start of what has been
/// reported after `j` of them, for `i` before `j`.
pub proof fn lemma_findings_keep_their_order(s: CheckerState, fs: Seq<FunctionView>, i: nat, j: nat)
    requires
        i <= j <= fs.len(),
    ensures
        starts_with(
            check_functions(s, fs, j).0.diagnostics,
            check_functions(s, fs, i).0.diagnostics,
        ),
    decreases j - i,
{
    let di = check_functions(s, fs, i).0.diagnostics;
    if i < j {
        lemma_findings_keep_their_order(s, fs, i, (j - 1) as nat);
        let before = check_functions(s, fs, (j - 1) as nat).0.diagnostics;
        let after = check_functions(s, fs, j).0.diagnostics;
        assert(before.len() <= after.len() && after.subrange(0, before.len() as int) =~= before);
        assert(after.subrange(0, di.len() as int) =~= before.subrange(0, di.len() as int));
    } else {
        assert(di.subrange(0, di.len() as int) =~= di);
    }
}

/// What stands at the start of a list stands at the start of any list
/// that this one stands at the start of.
proof fn lemma_starts_with_chain(a: Seq<Diagnostic>, b: Seq<Diagnostic>, c: Seq<Diagnostic>)
    requires
        starts_with(b, a),
        starts_with(c, b),
    ensures
        starts_with(c, a),
{
    assert(c.subrange(0, a.len() as int) =~= b.subrange(0, a.len() as int));
}

/// Checking the members of a circuit only adds findings after those
/// reported before.
proof fn lemma_members_findings_extend(s: CheckerState, ms: Seq<CircuitMemberView>, n: nat)
    ensures
        starts_with(check_members(s, ms, n).0.diagnostics, s.diagnostics),
    decreases n,
{
    if n == 0 || n > ms.len() {
        assert(s.diagnostics.subrange(0, s.diagnostics.len() as int) =~= s.diagnostics);
    } else {
        lemma_members_findings_extend(s, ms, (n - 1) as nat);
        let before = check_members(s, ms, (n - 1) as nat).0.diagnostics;
        let after = check_members(s, ms, n).0.diagnostics;
        assert(before.len() <= after.len() && after.subrange(0, before.len() as int) =~= before);
        lemma_starts_with_chain(s.diagnostics, before, after);
    }
}

/// Checking a list of circuits only adds findings after those reported
/// before.
proof fn lemma_circuits_findings_extend(s: CheckerState, cs: Seq<CircuitView>, n: nat)
    ensures
        starts_with(check_circuits(s, cs, n).0.diagnostics, s.diagnostics),
    decreases n,
{
    if n == 0 || n > cs.len() {
        assert(s.diagnostics.subrange(0, s.diagnostics.len() as int) =~= s.diagnostics);
    } else {
        lemma_circuits_findings_extend(s, cs, (n - 1) as nat);
        let (s1, stopped) = check_circuits(s, cs, (n - 1) as nat);
        if !stopped {
            lemma_members_findings_extend(s1, cs[n - 1].members, cs[n - 1].members.len());
            lemma_starts_with_chain(
                s.diagnostics,
                s1.diagnostics,
                check_circuits(s, cs, n).0.diagnostics,
            );
        }
    }
}

/// Over a whole program too, findings stay in the order of the walk: what
/// was reported before the pass comes first, then what the free functions
/// gave, then what the member functions of the circuits gave.
pub proof fn lemma_program_findings_keep_their_order(s: CheckerState, p: ProgramView)
    ensures
        starts_with(
            check_functions(s, p.functions, p.functions.len()).0.diagnostics,
            s.diagnostics,
        ),
        starts_with(
            check_program(s, p).0.diagnostics,
            check_functions(s, p.functions, p.functions.len()).0.diagnostics,
        ),
        starts_with(check_program(s, p).0.diagnostics, s.diagnostics),
{
    lemma_findings_keep_their_order(s, p.functions, 0, p.functions.len());
    let (s1, stopped) = check_functions(s, p.functions, p.functions.len());
    if stopped {
        assert(s1.diagnostics.subrange(0, s1.diagnostics.len() as int) =~= s1.diagnostics);
    } else {
        lemma_circuits_findings_extend(s1, p.circuits, p.circuits.len());
    }
    lemma_starts_with_chain(s.diagnostics, s1.diagnostics, check_program(s, p).0.diagnostics);
}

impl TransactionChecker {
    /// Runs the checker over a program with the limits of the second test
    /// network.
    pub fn do_pass(program: Program, sink: &mut DiagnosticSink) -> (r: Result<Program, FatalError>)
        ensures
            ({
                let end = check_program(
                    initial_state(
                        NetworkProfile {
                            max_transitions: 32,
                            max_input_records: 2,
                            max_output_records: 2,
                        },
                        program@.circuits,
                    ),
                    program@,
                ).0;
                &&& final(sink)@ == old(sink)@ + end.diagnostics
                &&& match r {
                    Ok(p) => end.fatal is None && p@ == program@,
                    Err(e) => end.fatal == Some(e),
                }
            }),
            r is Ok <==> !program_has_lone_mark(program@),
    {
        Self::do_pass_with_profile(program, NetworkProfile::testnet2(), sink)
    }

    /// Runs the checker over a program. The findings go to the sink, after
    /// what it held, in the order in which the functions stand in the
    /// program. The program comes back as it was, unless a function carries
    /// only one of the two marks: then the pass ends with that error.
    pub fn do_pass_with_profile(
        program: Program,
        profile: NetworkProfile,
        sink: &mut DiagnosticSink,
    ) -> (r: Result<Program, FatalError>)
        ensures
            ({
                let end = check_program(initial_state(profile, program@.circuits), program@).0;
                &&& final(sink)@ == old(sink)@ + end.diagnostics
                &&& match r {
                    Ok(p) => end.fatal is None && p@ == program@,
                    Err(e) => end.fatal == Some(e),
                }
            }),
            r is Ok <==> !program_has_lone_mark(program@),
    {
        let mut program = program;
        let pass = TransactionChecker::new(profile, &program.circuits);
        let ghost s0 = pass.state();
        let ghost given = program@;
        let mut director = VisitorDirector::new(pass);
        let _ = director.visit_program(&mut program);
        proof {
            lemma_walk_program(s0, given);
            lemma_check_program_fatal(s0, given);
        }
        let mut pass = director.visitor();
        sink.absorb(&mut pass.sink);
        match pass.fatal {
            Some(e) => Err(e),
            None => Ok(program),
        }
    }
}

} // verus!
