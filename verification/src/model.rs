//! Voice-model data: label patterns, decision trees, and PDF tables.

pub mod parser;
pub mod pattern;
pub mod stream;
pub mod voice;

use vstd::prelude::*;

verus! {

/// Failures in interpreting voice-model data.
#[derive(Debug, Clone, PartialEq, Eq)]
pub enum ModelError {
    /// No voice was supplied.
    NoVoices,
    /// Voices disagree on sampling rate, frame period, or per-stream shape.
    InconsistentMetadata,
    /// A decision-tree walk ended without reaching a leaf.
    TreeSearchFailed,
    /// A PDF index found by tree search lies outside the PDF table.
    PdfIndexOutOfRange,
    /// A required global-variance model is missing.
    MissingGv,
    /// A label pattern could not be compiled; carries the offending pattern.
    InvalidPattern(String),
}

} // verus!
