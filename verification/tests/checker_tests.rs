use asg_passes::annotation::{Annotation, Identifier};
use asg_passes::diagnostics::{Diagnostic, DiagnosticSink, FatalError};
use asg_passes::graph::{
    Argument, Circuit, CircuitMember, Evaluation, Expression, Function, Operation, OperationKind,
    Program, Statement, StatementKind,
};
use asg_passes::span::Span;
use asg_passes::text::Text;
use asg_passes::network::NetworkProfile;
use asg_passes::transaction_checker::TransactionChecker;
use asg_passes::types::{IntegerType, Type};
use asg_passes::diagnostics::EvaluationError;

fn span(line: u32) -> Span {
    Span { line_start: line, line_stop: line, col_start: 1, col_stop: 9 }
}

fn text(s: &str) -> Text {
    Text::new(s).expect("short enough for a text")
}

fn ident(name: &str) -> Identifier {
    Identifier { name: text(name), span: span(0) }
}

fn annotation(name: &str) -> Annotation {
    Annotation { span: span(0), name: ident(name), arguments: Vec::new() }
}

fn record_circuit() -> Circuit {
    Circuit {
        name: ident("Record"),
        span: None,
        annotations: vec![annotation("CoreCircuit")],
        members: Vec::new(),
    }
}

fn plain_circuit(name: &str, marks: &[&str]) -> Circuit {
    Circuit {
        name: ident(name),
        span: None,
        annotations: marks.iter().map(|m| annotation(m)).collect(),
        members: Vec::new(),
    }
}

fn record() -> Type {
    Type::Circuit(0)
}

fn u32_type() -> Type {
    Type::Integer(IntegerType::U32)
}

fn function(name: &str, line: u32, marks: &[&str], inputs: Vec<Type>, output: Type) -> Function {
    Function {
        name: ident(name),
        span: Some(span(line)),
        arguments: inputs
            .into_iter()
            .enumerate()
            .map(|(i, type_)| Argument { name: ident(&format!("a{}", i)), type_ })
            .collect(),
        output,
        annotations: marks.iter().map(|m| annotation(m)).collect(),
        body: None,
        core_mapping: None,
        always_const: false,
    }
}

fn transition(name: &str, line: u32, inputs: Vec<Type>, output: Type) -> Function {
    function(name, line, &["transaction", "transition"], inputs, output)
}

fn program(functions: Vec<Function>, circuits: Vec<Circuit>) -> Program {
    Program { name: "main".to_string(), functions, circuits }
}

fn profile(max_transitions: u8, max_input_records: usize, max_output_records: usize) -> NetworkProfile {
    NetworkProfile { max_transitions, max_input_records, max_output_records }
}

fn checker(circuits: &Vec<Circuit>) -> TransactionChecker {
    TransactionChecker::new(profile(16, 2, 2), circuits)
}

fn unsized_array_at(line: u32) -> Diagnostic {
    Diagnostic::RecordTypeInUnknownSizeArray { span: span(line) }
}

#[test]
fn count_records_in_tuple() {
    let circuits = vec![record_circuit()];
    let mut c = checker(&circuits);
    let t = Type::Tuple(vec![record(), u32_type(), record()]);
    assert_eq!(c.count_record_types(&t, span(1)), 2);
    assert!(c.sink.is_empty());
}

#[test]
fn count_records_in_array() {
    let circuits = vec![record_circuit()];
    let mut c = checker(&circuits);
    let t = Type::Array(Box::new(record()), 4);
    assert_eq!(c.count_record_types(&t, span(1)), 4);
    assert!(c.sink.is_empty());
}

#[test]
fn count_records_in_array_without_size() {
    let circuits = vec![record_circuit()];
    let mut c = checker(&circuits);
    let t = Type::ArrayWithoutSize(Box::new(record()));
    assert_eq!(c.count_record_types(&t, span(7)), 0);
    assert_eq!(c.sink.entries, vec![unsized_array_at(7)]);
}

#[test]
fn array_without_size_adds_nothing_to_the_enclosing_count() {
    let circuits = vec![record_circuit()];
    let mut c = checker(&circuits);
    let t = Type::Tuple(vec![
        record(),
        Type::ArrayWithoutSize(Box::new(Type::Tuple(vec![record(), record()]))),
        Type::Array(Box::new(record()), 3),
    ]);
    assert_eq!(c.count_record_types(&t, span(2)), 4);
    assert_eq!(c.sink.entries, vec![unsized_array_at(2)]);
}

#[test]
fn array_without_size_of_plain_values_is_not_reported() {
    let circuits = vec![record_circuit()];
    let mut c = checker(&circuits);
    let t = Type::ArrayWithoutSize(Box::new(Type::Tuple(vec![u32_type(), Type::Boolean])));
    assert_eq!(c.count_record_types(&t, span(2)), 0);
    assert!(c.sink.is_empty());
}

#[test]
fn nested_arrays_without_size_are_each_reported_where_they_hold_a_record() {
    let circuits = vec![record_circuit()];
    let mut c = checker(&circuits);
    // The inner array holds a record and is reported. The outer one holds only
    // the inner one, which counts as holding none, so it is not reported.
    let t = Type::ArrayWithoutSize(Box::new(Type::ArrayWithoutSize(Box::new(record()))));
    assert_eq!(c.count_record_types(&t, span(3)), 0);
    assert_eq!(c.sink.entries, vec![unsized_array_at(3)]);
}

#[test]
fn array_of_known_size_reports_an_inner_unsized_array_once() {
    let circuits = vec![record_circuit()];
    let mut c = checker(&circuits);
    let t = Type::Array(Box::new(Type::ArrayWithoutSize(Box::new(record()))), 5);
    assert_eq!(c.count_record_types(&t, span(3)), 0);
    assert_eq!(c.sink.entries, vec![unsized_array_at(3)]);
}

#[test]
fn primitives_and_empty_shapes_hold_no_record() {
    let circuits = vec![record_circuit()];
    let mut c = checker(&circuits);
    for t in [
        Type::Address,
        Type::Boolean,
        Type::Char,
        Type::Field,
        Type::Group,
        u32_type(),
        Type::Tuple(Vec::new()),
        Type::Array(Box::new(record()), 0),
    ] {
        assert_eq!(c.count_record_types(&t, span(1)), 0);
    }
    assert!(c.sink.is_empty());
}

#[test]
fn nested_arrays_multiply() {
    let circuits = vec![record_circuit()];
    let mut c = checker(&circuits);
    let row = Type::Array(Box::new(Type::Tuple(vec![record(), record()])), 3);
    let t = Type::Array(Box::new(row), 5);
    assert_eq!(c.count_record_types(&t, span(1)), 30);
}

#[test]
fn the_record_circuit_needs_both_name_and_annotation() {
    let circuits = vec![
        plain_circuit("Record", &[]),
        plain_circuit("Token", &["CoreCircuit"]),
        plain_circuit("Record", &["test", "CoreCircuit"]),
        plain_circuit("record", &["CoreCircuit"]),
    ];
    assert!(!circuits[0].is_record());
    assert!(!circuits[1].is_record());
    assert!(circuits[2].is_record());
    assert!(!circuits[3].is_record());
    let mut c = checker(&circuits);
    assert_eq!(c.records, vec![false, false, true, false]);
    let t = Type::Tuple(vec![
        Type::Circuit(0),
        Type::Circuit(1),
        Type::Circuit(2),
        Type::Circuit(3),
        Type::Circuit(4),
    ]);
    assert_eq!(c.count_record_types(&t, span(1)), 1);
}

#[test]
fn the_count_stops_at_the_largest_value() {
    let circuits = vec![record_circuit()];
    let mut c = checker(&circuits);
    let mut t = record();
    for _ in 0..5 {
        t = Type::Array(Box::new(t), u32::MAX);
    }
    assert_eq!(c.count_record_types(&t, span(1)), u128::MAX);
    let exact = Type::Array(Box::new(Type::Array(Box::new(record()), u32::MAX)), u32::MAX);
    assert_eq!(c.count_record_types(&exact, span(1)), (u32::MAX as u128) * (u32::MAX as u128));
    let sum = Type::Tuple(vec![t, record()]);
    assert_eq!(c.count_record_types(&sum, span(1)), u128::MAX);
}

#[test]
fn arity_enforcement_reports_the_second_of_two_transitions() {
    let p = program(
        vec![
            transition("first", 10, vec![record()], record()),
            transition("second", 20, vec![record()], record()),
        ],
        vec![record_circuit()],
    );
    let mut sink = DiagnosticSink::new();
    let r = TransactionChecker::do_pass_with_profile(p, profile(1, 2, 2), &mut sink);
    assert!(r.is_ok());
    assert_eq!(
        sink.entries,
        vec![Diagnostic::ExceededMaximumNumberOfTransitions { maximum: 1, span: span(20) }]
    );
}

#[test]
fn every_transition_past_the_cap_is_reported() {
    let p = program(
        vec![
            transition("a", 1, vec![], u32_type()),
            function("helper", 2, &[], vec![record(), record(), record()], record()),
            transition("b", 3, vec![], u32_type()),
            transition("c", 4, vec![], u32_type()),
            transition("d", 5, vec![], u32_type()),
        ],
        vec![record_circuit()],
    );
    let mut sink = DiagnosticSink::new();
    let r = TransactionChecker::do_pass_with_profile(p, profile(2, 2, 2), &mut sink);
    assert!(r.is_ok());
    assert_eq!(
        sink.entries,
        vec![
            Diagnostic::ExceededMaximumNumberOfTransitions { maximum: 2, span: span(4) },
            Diagnostic::ExceededMaximumNumberOfTransitions { maximum: 2, span: span(5) },
        ]
    );
}

#[test]
fn a_cap_of_zero_reports_every_transition() {
    let p = program(vec![transition("a", 1, vec![], u32_type())], vec![record_circuit()]);
    let mut sink = DiagnosticSink::new();
    assert!(TransactionChecker::do_pass_with_profile(p, profile(0, 2, 2), &mut sink).is_ok());
    assert_eq!(
        sink.entries,
        vec![Diagnostic::ExceededMaximumNumberOfTransitions { maximum: 0, span: span(1) }]
    );
}

#[test]
fn transition_without_transaction_is_fatal() {
    let p = program(
        vec![function("lonely", 3, &["transition"], vec![record()], record())],
        vec![record_circuit()],
    );
    let mut sink = DiagnosticSink::new();
    let r = TransactionChecker::do_pass_with_profile(p, profile(16, 2, 2), &mut sink);
    assert_eq!(r.err(), Some(FatalError::StandaloneTransition { span: span(3) }));
    assert!(sink.is_empty());
}

#[test]
fn transaction_without_transition_is_fatal() {
    let p = program(
        vec![function("lonely", 4, &["transaction"], vec![record()], record())],
        vec![record_circuit()],
    );
    let mut sink = DiagnosticSink::new();
    let r = TransactionChecker::do_pass_with_profile(p, profile(16, 2, 2), &mut sink);
    assert_eq!(r.err(), Some(FatalError::StandaloneTransaction { span: span(4) }));
    assert!(sink.is_empty());
}

#[test]
fn well_formed_transition_gives_no_diagnostic() {
    let p = program(
        vec![transition("mint", 1, vec![record(), u32_type(), record()], Type::Tuple(vec![record(), record()]))],
        vec![record_circuit()],
    );
    let mut sink = DiagnosticSink::new();
    let r = TransactionChecker::do_pass_with_profile(p, profile(16, 2, 2), &mut sink);
    let back = r.expect("the pass hands the program back");
    assert_eq!(back.functions.len(), 1);
    assert_eq!(back.functions[0].name.name.to_string(), "mint");
    assert!(sink.is_empty());
}

#[test]
fn the_fatal_error_ends_the_pass_and_keeps_earlier_findings() {
    let p = program(
        vec![
            transition("a", 1, vec![record(), record(), record()], u32_type()),
            function("b", 2, &["transition"], vec![], u32_type()),
            transition("c", 3, vec![record(), record(), record()], u32_type()),
        ],
        vec![record_circuit()],
    );
    let mut sink = DiagnosticSink::new();
    let r = TransactionChecker::do_pass_with_profile(p, profile(16, 2, 2), &mut sink);
    assert_eq!(r.err(), Some(FatalError::StandaloneTransition { span: span(2) }));
    assert_eq!(sink.entries, vec![Diagnostic::InputIsAtMostNRecords { maximum: 2, span: span(1) }]);
}

#[test]
fn a_function_without_span_is_reported_at_the_empty_span() {
    let mut f = transition("a", 1, vec![], Type::Array(Box::new(record()), 3));
    f.span = None;
    let p = program(vec![f], vec![record_circuit()]);
    let mut sink = DiagnosticSink::new();
    assert!(TransactionChecker::do_pass_with_profile(p, profile(16, 2, 2), &mut sink).is_ok());
    assert_eq!(
        sink.entries,
        vec![Diagnostic::OutputIsAtMostNRecords { maximum: 2, span: Span::default() }]
    );
}

#[test]
fn too_many_input_records() {
    let p = program(
        vec![transition("a", 1, vec![record(), Type::Tuple(vec![record(), record()])], u32_type())],
        vec![record_circuit()],
    );
    let mut sink = DiagnosticSink::new();
    assert!(TransactionChecker::do_pass_with_profile(p, profile(16, 2, 2), &mut sink).is_ok());
    assert_eq!(sink.entries, vec![Diagnostic::InputIsAtMostNRecords { maximum: 2, span: span(1) }]);
}

#[test]
fn input_records_at_the_limit_are_accepted() {
    let p = program(
        vec![transition("a", 1, vec![record(), record()], Type::Array(Box::new(record()), 2))],
        vec![record_circuit()],
    );
    let mut sink = DiagnosticSink::new();
    assert!(TransactionChecker::do_pass_with_profile(p, profile(16, 2, 2), &mut sink).is_ok());
    assert!(sink.is_empty());
}

#[test]
fn too_many_output_records() {
    let p = program(
        vec![transition("a", 1, vec![], Type::Array(Box::new(record()), 3))],
        vec![record_circuit()],
    );
    let mut sink = DiagnosticSink::new();
    assert!(TransactionChecker::do_pass_with_profile(p, profile(16, 5, 2), &mut sink).is_ok());
    assert_eq!(sink.entries, vec![Diagnostic::OutputIsAtMostNRecords { maximum: 2, span: span(1) }]);
}

#[test]
fn diagnostics_follow_the_order_of_the_program() {
    let p = program(
        vec![
            transition(
                "a",
                1,
                vec![Type::ArrayWithoutSize(Box::new(record())), Type::Array(Box::new(record()), 3)],
                Type::Tuple(vec![Type::ArrayWithoutSize(Box::new(record())), record(), record(), record()]),
            ),
            transition("b", 2, vec![record(), record(), record()], u32_type()),
        ],
        vec![record_circuit()],
    );
    let mut sink = DiagnosticSink::new();
    sink.emit(Diagnostic::EvaluationFailed(EvaluationError { code: 9, span: span(99) }));
    assert!(TransactionChecker::do_pass_with_profile(p, profile(1, 2, 2), &mut sink).is_ok());
    assert_eq!(
        sink.entries,
        vec![
            Diagnostic::EvaluationFailed(EvaluationError { code: 9, span: span(99) }),
            unsized_array_at(1),
            Diagnostic::InputIsAtMostNRecords { maximum: 2, span: span(1) },
            unsized_array_at(1),
            Diagnostic::OutputIsAtMostNRecords { maximum: 2, span: span(1) },
            Diagnostic::ExceededMaximumNumberOfTransitions { maximum: 1, span: span(2) },
            Diagnostic::InputIsAtMostNRecords { maximum: 2, span: span(2) },
        ]
    );
}

#[test]
fn member_functions_are_checked_after_free_functions() {
    let mut token = plain_circuit("Token", &[]);
    token.members = vec![
        CircuitMember::Variable(ident("amount"), u32_type()),
        CircuitMember::Function(transition("member", 30, vec![], u32_type())),
    ];
    let p = program(
        vec![transition("free", 10, vec![], u32_type())],
        vec![record_circuit(), token],
    );
    let mut sink = DiagnosticSink::new();
    assert!(TransactionChecker::do_pass_with_profile(p, profile(1, 2, 2), &mut sink).is_ok());
    assert_eq!(
        sink.entries,
        vec![Diagnostic::ExceededMaximumNumberOfTransitions { maximum: 1, span: span(30) }]
    );
}

#[test]
fn functions_that_are_no_transitions_are_passed_over() {
    let p = program(
        vec![
            function("helper", 1, &["test"], vec![record(), record(), record()], Type::ArrayWithoutSize(Box::new(record()))),
            function("other", 2, &[], vec![], u32_type()),
        ],
        vec![record_circuit()],
    );
    let mut sink = DiagnosticSink::new();
    assert!(TransactionChecker::do_pass_with_profile(p, profile(0, 0, 0), &mut sink).is_ok());
    assert!(sink.is_empty());
}

#[test]
fn the_checker_does_not_enter_bodies() {
    let failing = Expression::Operation(Operation {
        parent: None,
        span: Some(span(5)),
        kind: OperationKind::Binary,
        outcome: Evaluation::Failed(EvaluationError { code: 1, span: span(5) }),
        operands: Vec::new(),
    });
    let mut f = transition("a", 1, vec![], u32_type());
    f.body = Some(Statement {
        parent: None,
        span: None,
        kind: StatementKind::Return,
        expressions: vec![failing],
        statements: Vec::new(),
    });
    let p = program(vec![f], vec![record_circuit()]);
    let mut sink = DiagnosticSink::new();
    let back = TransactionChecker::do_pass_with_profile(p, profile(16, 2, 2), &mut sink).unwrap();
    assert!(sink.is_empty());
    let body = back.functions[0].body.as_ref().unwrap();
    assert!(matches!(body.expressions[0], Expression::Operation(_)));
}

#[test]
fn the_second_test_network_allows_32_transitions_and_two_records_each_way() {
    assert_eq!(NetworkProfile::testnet2(), profile(32, 2, 2));
}

#[test]
fn the_pass_applies_the_limits_of_the_second_test_network() {
    let mut functions = Vec::new();
    for line in 1..=34u32 {
        functions.push(transition("t", line, vec![record(), record()], Type::Tuple(vec![record(), record()])));
    }
    functions.push(transition("wide", 35, vec![record(), record(), record()], u32_type()));
    let p = program(functions, vec![record_circuit()]);
    let mut sink = DiagnosticSink::new();
    assert!(TransactionChecker::do_pass(p, &mut sink).is_ok());
    assert_eq!(
        sink.entries,
        vec![
            Diagnostic::ExceededMaximumNumberOfTransitions { maximum: 32, span: span(33) },
            Diagnostic::ExceededMaximumNumberOfTransitions { maximum: 32, span: span(34) },
            Diagnostic::ExceededMaximumNumberOfTransitions { maximum: 32, span: span(35) },
            Diagnostic::InputIsAtMostNRecords { maximum: 2, span: span(35) },
        ]
    );
}
