//! The error channel: one error-kind tag plus an ordered, append-only list
//! of context lines, one pushed per enclosing evaluation or matching frame
//! as the error unwinds, innermost first.
//!
//! Ordinary failures are returned as values.  The internal-fault and
//! unreachable-marker kinds are interpreter-invariant violations, kept as
//! distinct tags so that they are never mistaken for a language-level
//! condition; the resource kind reports exhaustion of the evaluation depth
//! or of the numeric stand-in's range.

use vstd::prelude::*;

use crate::eq::{ident_eq, sexpr_eq, term_eq};
use crate::term::{seq_view, Fun, FunV, Ident, IdentV, SExpr, SExprKind, TermV};

verus! {

/// The error kinds, each carrying what the failing frame saw.
#[derive(Debug)]
pub enum InterpreterErrorInfo {
    /// A pattern-only or otherwise non-reducible term was used as a value.
    CannotEvaluate(SExpr),
    /// An application head did not reduce to a Function.
    CannotCall(SExpr),
    /// An identifier was not bound in any scope.
    UnknownName(Ident),
    /// A sigil had no bound operator.
    UndefinedSigil(char),
    /// Arguments were rejected by a function's parameter pattern.
    NonMatchingArgs(Fun, Vec<SExpr>),
    /// Structural decoding of a term into a host-level value failed.
    CannotConvert(SExpr),
    /// A term of the wrong variant stood where the named kind was needed.
    NotA(SExprKind, SExpr),
    /// The `Never` marker surfaced as a result: a fatal interpreter
    /// invariant violation.
    ReachedTheUnreachable,
    /// The matcher met a pattern-shape combination it has no case for:
    /// a defect in core or library logic, never a user error.
    InternalFault,
    /// The evaluation depth or the numeric range of the host
    /// representation ran out.
    ResourceExhausted,
}

/// Mathematical view of an error kind.
#[verifier::ext_equal]
pub enum ErrV {
    CannotEvaluate(TermV),
    CannotCall(TermV),
    UnknownName(IdentV),
    UndefinedSigil(char),
    NonMatchingArgs(FunV, Seq<TermV>),
    CannotConvert(TermV),
    NotA(SExprKind, TermV),
    ReachedTheUnreachable,
    InternalFault,
    ResourceExhausted,
}

impl View for InterpreterErrorInfo {
    type V = ErrV;

    open spec fn view(&self) -> ErrV {
        match self {
            InterpreterErrorInfo::CannotEvaluate(t) => ErrV::CannotEvaluate(t@),
            InterpreterErrorInfo::CannotCall(t) => ErrV::CannotCall(t@),
            InterpreterErrorInfo::UnknownName(id) => ErrV::UnknownName(id@),
            InterpreterErrorInfo::UndefinedSigil(c) => ErrV::UndefinedSigil(*c),
            InterpreterErrorInfo::NonMatchingArgs(f, args) => ErrV::NonMatchingArgs(
                f@,
                seq_view(args@),
            ),
            InterpreterErrorInfo::CannotConvert(t) => ErrV::CannotConvert(t@),
            InterpreterErrorInfo::NotA(k, t) => ErrV::NotA(*k, t@),
            InterpreterErrorInfo::ReachedTheUnreachable => ErrV::ReachedTheUnreachable,
            InterpreterErrorInfo::InternalFault => ErrV::InternalFault,
            InterpreterErrorInfo::ResourceExhausted => ErrV::ResourceExhausted,
        }
    }
}

/// Equality of error kinds: same tag, and structurally equal payloads.
/// Payloads holding a closure compare as closures do: never equal.
pub open spec fn err_eq(a: ErrV, b: ErrV) -> bool {
    match (a, b) {
        (ErrV::CannotEvaluate(x), ErrV::CannotEvaluate(y)) => term_eq(x, y),
        (ErrV::CannotCall(x), ErrV::CannotCall(y)) => term_eq(x, y),
        (ErrV::UnknownName(x), ErrV::UnknownName(y)) => x == y,
        (ErrV::UndefinedSigil(x), ErrV::UndefinedSigil(y)) => x == y,
        (ErrV::NonMatchingArgs(_, _), ErrV::NonMatchingArgs(_, _)) => false,
        (ErrV::CannotConvert(x), ErrV::CannotConvert(y)) => term_eq(x, y),
        (ErrV::NotA(k1, x), ErrV::NotA(k2, y)) => k1 == k2 && term_eq(x, y),
        (ErrV::ReachedTheUnreachable, ErrV::ReachedTheUnreachable) => true,
        (ErrV::InternalFault, ErrV::InternalFault) => true,
        (ErrV::ResourceExhausted, ErrV::ResourceExhausted) => true,
        _ => false,
    }
}

impl PartialEq for InterpreterErrorInfo {
    fn eq(&self, other: &InterpreterErrorInfo) -> (r: bool) {
        match (self, other) {
            (InterpreterErrorInfo::CannotEvaluate(x), InterpreterErrorInfo::CannotEvaluate(y)) => {
                sexpr_eq(x, y)
            },
            (InterpreterErrorInfo::CannotCall(x), InterpreterErrorInfo::CannotCall(y)) => {
                sexpr_eq(x, y)
            },
            (InterpreterErrorInfo::UnknownName(x), InterpreterErrorInfo::UnknownName(y)) => {
                ident_eq(x, y)
            },
            (InterpreterErrorInfo::UndefinedSigil(x), InterpreterErrorInfo::UndefinedSigil(y)) => {
                x == y
            },
            (
                InterpreterErrorInfo::NonMatchingArgs(_, _),
                InterpreterErrorInfo::NonMatchingArgs(_, _),
            ) => false,
            (InterpreterErrorInfo::CannotConvert(x), InterpreterErrorInfo::CannotConvert(y)) => {
                sexpr_eq(x, y)
            },
            (InterpreterErrorInfo::NotA(k1, x), InterpreterErrorInfo::NotA(k2, y)) => {
                *k1 == *k2 && sexpr_eq(x, y)
            },
            (
                InterpreterErrorInfo::ReachedTheUnreachable,
                InterpreterErrorInfo::ReachedTheUnreachable,
            ) => true,
            (InterpreterErrorInfo::InternalFault, InterpreterErrorInfo::InternalFault) => true,
            (
                InterpreterErrorInfo::ResourceExhausted,
                InterpreterErrorInfo::ResourceExhausted,
            ) => true,
            _ => false,
        }
    }
}

impl vstd::std_specs::cmp::PartialEqSpecImpl for InterpreterErrorInfo {
    open spec fn obeys_eq_spec() -> bool {
        true
    }

    open spec fn eq_spec(&self, other: &InterpreterErrorInfo) -> bool {
        err_eq(self@, other@)
    }
}

/// A structured error: the kind, and the innermost-first trace, one line
/// per enclosing frame.
#[derive(Debug)]
pub struct InterpreterError {
    pub info: InterpreterErrorInfo,
    pub callstack: Vec<String>,
}

impl InterpreterError {
    /// An error with an empty trace.
    pub fn new(info: InterpreterErrorInfo) -> (r: InterpreterError)
        ensures
            r.info@ == info@,
            r.callstack@.len() == 0,
    {
        InterpreterError { info, callstack: Vec::new() }
    }

    /// The same error with one more trace line, pushed by the enclosing
    /// frame as the error unwinds.
    pub fn with_frame(self, line: &str) -> (r: InterpreterError)
        ensures
            r.info@ == self.info@,
            r.callstack@.len() == self.callstack@.len() + 1,
    {
        let mut callstack = self.callstack;
        callstack.push(<String as vstd::string::StringExecFns>::from_str(line));
        InterpreterError { info: self.info, callstack }
    }
}

} // verus!
