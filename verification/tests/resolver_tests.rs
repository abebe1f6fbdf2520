use asg_passes::annotation::{Annotation, Identifier};
use asg_passes::annotations::{handle_annotations, AlwaysConst, AnnotationResolver, CoreFunction};
use asg_passes::graph::{
    Circuit, CircuitMember, CircuitView, ConstInt, ConstValue, Constant, Expression, ExpressionView,
    Function, FunctionView, Program, ProgramView, Statement, StatementKind, StatementView,
};
use asg_passes::reducer::{ReconstructingDirector, Reducer};
use asg_passes::span::Span;
use asg_passes::text::Text;
use asg_passes::types::Type;

fn span(line: u32) -> Span {
    Span { line_start: line, line_stop: line, col_start: 0, col_stop: 3 }
}

fn text(s: &str) -> Text {
    Text::new(s).expect("short enough for a text")
}

fn ident(name: &str) -> Identifier {
    Identifier { name: text(name), span: span(0) }
}

fn annotation(name: &str, arguments: &[&str]) -> Annotation {
    Annotation {
        span: span(1),
        name: ident(name),
        arguments: arguments.iter().map(|a| text(a)).collect(),
    }
}

fn function(name: &str, annotations: Vec<Annotation>) -> Function {
    Function {
        name: ident(name),
        span: Some(span(4)),
        arguments: Vec::new(),
        output: Type::Boolean,
        annotations,
        body: None,
        core_mapping: None,
        always_const: false,
    }
}

#[test]
fn core_function_without_argument_binds_the_function_name() {
    let mut f = function("foo", Vec::new());
    CoreFunction::resolve(&mut f, &annotation("CoreFunction", &[]));
    assert_eq!(f.core_mapping, Some("foo".to_string()));
    assert_eq!(f.name.name.to_string(), "foo");
    assert!(!f.always_const);
}

#[test]
fn core_function_with_argument_binds_the_argument() {
    let mut f = function("foo", Vec::new());
    CoreFunction::resolve(&mut f, &annotation("CoreFunction", &["bar", "baz"]));
    assert_eq!(f.core_mapping, Some("bar".to_string()));
}

#[test]
fn always_const_marks_the_function() {
    let mut f = function("foo", Vec::new());
    AlwaysConst::resolve(&mut f);
    assert!(f.always_const);
    assert_eq!(f.core_mapping, None);
}

#[test]
fn handle_annotations_goes_through_all_annotations() {
    let mut f = function(
        "foo",
        vec![annotation("test", &["x"]), annotation("CoreFunction", &[]), annotation("AlwaysConst", &[])],
    );
    handle_annotations(&mut f);
    assert_eq!(f.core_mapping, Some("foo".to_string()));
    assert!(f.always_const);
    assert_eq!(f.annotations.len(), 3);
    assert_eq!(f.annotations[0].name.name.to_string(), "test");
    assert_eq!(f.annotations[1].name.name.to_string(), "CoreFunction");
    assert_eq!(f.annotations[2].name.name.to_string(), "AlwaysConst");
}

#[test]
fn unknown_annotations_change_nothing() {
    let mut f = function("foo", vec![annotation("corefunction", &["bar"]), annotation("inline", &[])]);
    f.core_mapping = Some("kept".to_string());
    handle_annotations(&mut f);
    assert_eq!(f.core_mapping, Some("kept".to_string()));
    assert!(!f.always_const);
}

#[test]
fn the_last_core_function_annotation_wins() {
    let mut f = function(
        "foo",
        vec![annotation("CoreFunction", &["first"]), annotation("CoreFunction", &["second"])],
    );
    handle_annotations(&mut f);
    assert_eq!(f.core_mapping, Some("second".to_string()));
    handle_annotations(&mut f);
    assert_eq!(f.core_mapping, Some("second".to_string()));
}

#[test]
fn the_pass_resolves_free_and_member_functions() {
    let body = Statement {
        parent: None,
        span: None,
        kind: StatementKind::Return,
        expressions: vec![Expression::Constant(Constant {
            parent: None,
            span: None,
            value: ConstValue::Boolean(true),
        })],
        statements: Vec::new(),
    };
    let mut with_body = function("blake2s", vec![annotation("CoreFunction", &[])]);
    with_body.body = Some(body);
    let circuit = Circuit {
        name: ident("Hasher"),
        span: None,
        annotations: vec![annotation("CoreFunction", &["ignored"])],
        members: vec![
            CircuitMember::Function(function("hash", vec![annotation("CoreFunction", &["pedersen"])])),
            CircuitMember::Variable(ident("state"), Type::Field),
            CircuitMember::Function(function("plain", Vec::new())),
        ],
    };
    let p = Program {
        name: "main".to_string(),
        functions: vec![with_body, function("k", vec![annotation("AlwaysConst", &[])])],
        circuits: vec![circuit],
    };
    let done = AnnotationResolver::do_pass(p).expect("resolution never fails");
    assert_eq!(done.name, "main");
    assert_eq!(done.functions.len(), 2);
    assert_eq!(done.functions[0].core_mapping, Some("blake2s".to_string()));
    assert!(!done.functions[0].always_const);
    assert!(done.functions[0].body.is_some());
    assert_eq!(done.functions[1].core_mapping, None);
    assert!(done.functions[1].always_const);
    assert_eq!(done.circuits[0].members.len(), 3);
    match &done.circuits[0].members[0] {
        CircuitMember::Function(f) => assert_eq!(f.core_mapping, Some("pedersen".to_string())),
        CircuitMember::Variable(..) => panic!("member order changed"),
    }
    assert!(matches!(done.circuits[0].members[1], CircuitMember::Variable(..)));
    match &done.circuits[0].members[2] {
        CircuitMember::Function(f) => {
            assert_eq!(f.core_mapping, None);
            assert!(!f.always_const);
        }
        CircuitMember::Variable(..) => panic!("member order changed"),
    }
}

/// Numbers the nodes in the order in which the rules see them.
struct Numbering {
    order: Vec<String>,
}

impl Reducer for Numbering {
    type State = ();

    // The seven rules below are read by the verifier only and never run.
    fn state(&self) {
        unreachable!()
    }

    fn expression_rule(_: (), _: ExpressionView) -> ((), ExpressionView) {
        unreachable!()
    }

    fn statement_rule(_: (), _: StatementView) -> ((), StatementView) {
        unreachable!()
    }

    fn function_rule(_: (), _: FunctionView) -> ((), FunctionView) {
        unreachable!()
    }

    fn member_function_rule(_: (), _: FunctionView) -> ((), FunctionView) {
        unreachable!()
    }

    fn circuit_rule(_: (), _: CircuitView) -> ((), CircuitView) {
        unreachable!()
    }

    fn program_rule(_: (), _: ProgramView) -> ((), ProgramView) {
        unreachable!()
    }

    fn reduce_expression(&mut self, e: &mut Expression) {
        let n = match e {
            Expression::Constant(_) => 0,
            Expression::Operation(o) => o.operands.len(),
        };
        self.order.push(format!("expression/{}", n));
    }

    fn reduce_statement(&mut self, t: &mut Statement) {
        self.order.push(format!("statement/{}", t.statements.len()));
    }

    fn reduce_function(&mut self, f: &mut Function) {
        self.order.push(format!("function {}", f.name.name.to_string()));
    }

    fn reduce_circuit_member_function(&mut self, f: &mut Function) {
        self.order.push(format!("member {}", f.name.name.to_string()));
    }

    fn reduce_circuit(&mut self, c: &mut Circuit) {
        self.order.push(format!("circuit {}", c.name.name.to_string()));
    }

    fn reduce_program(&mut self, p: &mut Program) {
        self.order.push(format!("program {}", p.name));
    }
}

#[test]
fn the_reducer_sees_children_before_parents() {
    let leaf = || Expression::Constant(Constant { parent: None, span: None, value: ConstValue::Int(ConstInt::U32(1)) });
    let inner = Statement {
        parent: None,
        span: None,
        kind: StatementKind::Return,
        expressions: vec![leaf()],
        statements: Vec::new(),
    };
    let body = Statement {
        parent: None,
        span: None,
        kind: StatementKind::Block,
        expressions: Vec::new(),
        statements: vec![inner],
    };
    let mut f = function("f", Vec::new());
    f.body = Some(body);
    let circuit = Circuit {
        name: ident("C"),
        span: None,
        annotations: Vec::new(),
        members: vec![CircuitMember::Function(function("m", Vec::new()))],
    };
    let mut p = Program { name: "main".to_string(), functions: vec![f], circuits: vec![circuit] };
    let mut director = ReconstructingDirector::new(Numbering { order: Vec::new() });
    director.reduce_program(&mut p);
    assert_eq!(
        director.reducer().order,
        vec![
            "expression/0",
            "statement/0",
            "statement/1",
            "function f",
            "function m",
            "member m",
            "circuit C",
            "program main",
        ]
    );
}
