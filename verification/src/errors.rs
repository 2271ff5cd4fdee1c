//! Recoverable faults reported by evaluation and lowering.

use crate::value::{SpecValue, Value, ValueKind};
use vstd::prelude::*;

verus! {

/// A fault found while evaluating an expression. Every fault carries the
/// offending name or value, so a caller can decide to retry, report or halt.
#[derive(Debug, PartialEq)]
pub enum EvalError {
    /// A symbol had no binding in the environment.
    UnboundVariable(String),
    /// An operand had the wrong variant; `location` is its index within the
    /// sequence under evaluation.
    TypeMismatch { expected: ValueKind, found: Value, location: usize },
    /// The leading element of a non-empty sequence names no known operation.
    Unsupported { operation: Value },
    /// Reserved for evaluators that reduce nested expressions recursively
    /// under a depth bound; the present reduction rules never recurse, so no
    /// input yields it.
    DepthExceeded { limit: usize },
}

/// The mathematical model of an `EvalError`.
pub enum SpecEvalError {
    UnboundVariable(Seq<char>),
    TypeMismatch { expected: ValueKind, found: SpecValue, location: int },
    Unsupported { operation: SpecValue },
    DepthExceeded { limit: int },
}

impl DeepView for EvalError {
    type V = SpecEvalError;

    open spec fn deep_view(&self) -> SpecEvalError {
        match self {
            EvalError::UnboundVariable(name) => SpecEvalError::UnboundVariable(name@),
            EvalError::TypeMismatch { expected, found, location } => SpecEvalError::TypeMismatch {
                expected: *expected,
                found: found.deep_view(),
                location: *location as int,
            },
            EvalError::Unsupported { operation } => SpecEvalError::Unsupported {
                operation: operation.deep_view(),
            },
            EvalError::DepthExceeded { limit } => SpecEvalError::DepthExceeded {
                limit: *limit as int,
            },
        }
    }
}

/// A fault found while lowering an environment's bindings.
#[derive(Debug, PartialEq)]
pub enum LowerError {
    /// The named binding holds a variant that has no lowered form.
    UnsupportedLowering { name: String, kind: ValueKind },
}

} // verus!
