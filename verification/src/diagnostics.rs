use vstd::prelude::*;
use crate::span::Span;

verus! {

/// Why compile-time evaluation of an expression failed.
#[derive(Clone, Copy, Debug, PartialEq, Eq, Structural)]
pub struct EvaluationError {
    pub code: i32,
    pub span: Span,
}

/// A finding that a pass reports and then goes on.
#[derive(Clone, Copy, Debug, PartialEq, Eq, Structural)]
pub enum Diagnostic {
    EvaluationFailed(EvaluationError),
    ExceededMaximumNumberOfTransitions { maximum: u8, span: Span },
    InputIsAtMostNRecords { maximum: usize, span: Span },
    OutputIsAtMostNRecords { maximum: usize, span: Span },
    RecordTypeInUnknownSizeArray { span: Span },
}

/// A finding that ends a pass at once.
#[derive(Clone, Copy, Debug, PartialEq, Eq, Structural)]
pub enum FatalError {
    /// A function marked as a transaction that is not marked as a transition.
    StandaloneTransaction { span: Span },
    /// A function marked as a transition that is not marked as a transaction.
    StandaloneTransition { span: Span },
}

/// `n` copies of one diagnostic.
pub open spec fn repeated(d: Diagnostic, n: nat) -> Seq<Diagnostic> {
    Seq::new(n, |i: int| d)
}

/// Collects diagnostics in the order in which they are emitted.
#[derive(Debug)]
pub struct DiagnosticSink {
    pub entries: Vec<Diagnostic>,
}

impl View for DiagnosticSink {
    type V = Seq<Diagnostic>;

    open spec fn view(&self) -> Seq<Diagnostic> {
        self.entries@
    }
}

impl DiagnosticSink {
    /// A sink that holds nothing yet.
    pub fn new() -> (r: DiagnosticSink)
        ensures
            r@ == Seq::<Diagnostic>::empty(),
    {
        DiagnosticSink { entries: Vec::new() }
    }

    /// Appends one diagnostic after all that were emitted before.
    pub fn emit(&mut self, d: Diagnostic)
        ensures
            final(self)@ == old(self)@.push(d),
    {
        self.entries.push(d);
    }

    /// Appends all the diagnostics of `other`, in their order, and empties it.
    pub fn absorb(&mut self, other: &mut DiagnosticSink)
        ensures
            final(self)@ == old(self)@ + old(other)@,
            final(other)@ == Seq::<Diagnostic>::empty(),
    {
        self.entries.append(&mut other.entries);
    }

    /// How many diagnostics have been emitted.
    pub fn len(&self) -> (n: usize)
        ensures
            n == self@.len(),
    {
        self.entries.len()
    }

    /// Whether nothing has been emitted.
    pub fn is_empty(&self) -> (r: bool)
        ensures
            r == (self@.len() == 0),
    {
        self.entries.len() == 0
    }

    /// The diagnostic that was emitted as number `i`, counting from zero.
    pub fn get(&self, i: usize) -> (r: Option<Diagnostic>)
        ensures
            r == if i < self@.len() {
                Some(self@[i as int])
            } else {
                None
            },
    {
        if i < self.entries.len() {
            Some(self.entries[i])
        } else {
            None
        }
    }
}

} // verus!
