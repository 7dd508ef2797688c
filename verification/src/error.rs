//! The ways in which the analysis of a procedure fails.

use crate::types::{FunId, ModuleId};
use vstd::prelude::*;

verus! {

/// A failure of the analysis. The program broke an assumption that the
/// analysis depends on, or calls a native function that has no model.
#[derive(Debug, PartialEq, Eq)]
pub enum AnalysisError {
    /// The slot with this index is read where it must be bound.
    UnboundLocal(usize),
    /// A statically known address is followed by an offset that is not a
    /// resource.
    BadOffsetForAddress,
    /// The operation is not part of the instruction set of the analysis.
    UnsupportedOperation,
    /// An instruction lacks an operand or a destination.
    MalformedInstruction,
    /// The program calls a function that it does not declare.
    UnknownFunction(ModuleId, FunId),
    /// A jump or a branch names a label that the procedure does not declare.
    UnknownLabel(usize),
    /// The native function has no model.
    UnsupportedNativeFunction { module: String, function: String },
}

/// The mathematical value of an [`AnalysisError`].
pub enum ErrorView {
    UnboundLocal(usize),
    BadOffsetForAddress,
    UnsupportedOperation,
    MalformedInstruction,
    UnknownFunction(ModuleId, FunId),
    UnknownLabel(usize),
    UnsupportedNativeFunction { module: Seq<char>, function: Seq<char> },
}

impl View for AnalysisError {
    type V = ErrorView;

    open spec fn view(&self) -> ErrorView {
        match self {
            AnalysisError::UnboundLocal(i) => ErrorView::UnboundLocal(*i),
            AnalysisError::BadOffsetForAddress => ErrorView::BadOffsetForAddress,
            AnalysisError::UnsupportedOperation => ErrorView::UnsupportedOperation,
            AnalysisError::MalformedInstruction => ErrorView::MalformedInstruction,
            AnalysisError::UnknownFunction(m, f) => ErrorView::UnknownFunction(*m, *f),
            AnalysisError::UnknownLabel(l) => ErrorView::UnknownLabel(*l),
            AnalysisError::UnsupportedNativeFunction { module, function } => {
                ErrorView::UnsupportedNativeFunction { module: module@, function: function@ }
            },
        }
    }
}

} // verus!
