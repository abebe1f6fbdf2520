use asg_passes::diagnostics::{Diagnostic, DiagnosticSink, EvaluationError};
use asg_passes::span::Span;

fn at(line: u32) -> Span {
    Span { line_start: line, line_stop: line + 1, col_start: 3, col_stop: 8 }
}

#[test]
fn a_new_sink_is_empty() {
    let sink = DiagnosticSink::new();
    assert!(sink.is_empty());
    assert_eq!(sink.len(), 0);
    assert_eq!(sink.get(0), None);
}

#[test]
fn the_sink_keeps_diagnostics_in_the_order_of_emission() {
    let first = Diagnostic::InputIsAtMostNRecords { maximum: 2, span: at(1) };
    let second = Diagnostic::EvaluationFailed(EvaluationError { code: 37, span: at(2) });
    let third = Diagnostic::InputIsAtMostNRecords { maximum: 2, span: at(1) };
    let mut sink = DiagnosticSink::new();
    sink.emit(first);
    sink.emit(second);
    sink.emit(third);
    assert!(!sink.is_empty());
    assert_eq!(sink.len(), 3);
    assert_eq!(sink.get(0), Some(first));
    assert_eq!(sink.get(1), Some(second));
    assert_eq!(sink.get(2), Some(third));
    assert_eq!(sink.get(3), None);
    assert_eq!(sink.entries, vec![first, second, third]);
}

#[test]
fn absorbing_appends_in_order_and_empties_the_other_sink() {
    let a = Diagnostic::RecordTypeInUnknownSizeArray { span: at(1) };
    let b = Diagnostic::OutputIsAtMostNRecords { maximum: 4, span: at(2) };
    let c = Diagnostic::ExceededMaximumNumberOfTransitions { maximum: 32, span: at(3) };
    let mut target = DiagnosticSink::new();
    target.emit(a);
    let mut other = DiagnosticSink::new();
    other.emit(b);
    other.emit(c);
    target.absorb(&mut other);
    assert_eq!(target.entries, vec![a, b, c]);
    assert!(other.is_empty());
    target.absorb(&mut other);
    assert_eq!(target.entries, vec![a, b, c]);
}
