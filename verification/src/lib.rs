//! Core logic of an HMM/HSMM parametric speech synthesis engine:
//! label-pattern matching, decision-tree search, model indexing, and the
//! textual decision-tree grammar.
//!
//! The purely numerical parts of the pipeline (Gaussian mixing, duration
//! smoothing, parameter generation and the vocoder) operate on floating-point
//! data and live outside this verified core.

pub mod engine;
pub mod model;
pub mod text;

use vstd::prelude::*;

verus! {

/// Applies `f` to a value and hands the result back.
///
/// The surrounding code uses this to adjust a freshly built value in the
/// middle of an expression without naming a temporary.
pub fn mutated<T, F: FnOnce(T) -> T>(value: T, f: F) -> (r: T)
    requires
        call_requires(f, (value,)),
    ensures
        call_ensures(f, (value,), r),
{
    f(value)
}

} // verus!
