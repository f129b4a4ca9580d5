//! The error kinds with which one evaluation pass can fail.

use vstd::prelude::*;

verus! {

/// A failure that aborts the whole evaluation call.
///
/// Benign non-matches (an unresolved device reference while translating a
/// diff, a state-shape mismatch during a validated apply) are not errors:
/// they are silently skipped by the functions concerned.
#[derive(Clone, Copy, Debug, PartialEq, Eq, Structural)]
pub enum CoreError {
    /// A non-scalar value reached the leaf converter, or a number cannot
    /// be represented as the namespace's numeric kind.
    Conversion,
    /// Invalid registration while building the namespace.
    Context,
    /// Expression runtime failure, or a built-in called with a wrong
    /// argument arity or type.
    Evaluation,
    /// A diffed path cannot be turned into a structural pointer.
    DiffEncoding,
}

} // verus!
