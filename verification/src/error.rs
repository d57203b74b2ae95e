//! The errors that the recorder reports.

use crate::model::Fault;
use vstd::prelude::*;

verus! {

/// Why an operation of the recorder was refused. Every one of them leaves
/// the recorder as it was.
#[derive(Debug, PartialEq, Eq)]
pub enum EmitError {
    /// A pending patch names a label that was never defined.
    UnresolvedLabel { label: String, patch_pos: usize },
    /// A replacement does not have the length that was reserved for it.
    PatchLengthMismatch { patch_pos: usize, expected: usize, actual: usize },
    /// There is not one replacement per pending patch.
    ReplacementCountMismatch { expected: usize, actual: usize },
    /// The label is bound already, at `offset`, and rebinding is not allowed.
    LabelRedefinition { label: String, offset: usize },
    /// The resolution pass has run: the buffer is final.
    AlreadyResolved,
}

impl View for EmitError {
    type V = Fault;

    open spec fn view(&self) -> Fault {
        match *self {
            EmitError::UnresolvedLabel { label, patch_pos } => Fault::UnresolvedLabel {
                label: label@,
                patch_pos,
            },
            EmitError::PatchLengthMismatch {
                patch_pos,
                expected,
                actual,
            } => Fault::PatchLengthMismatch { patch_pos, expected, actual },
            EmitError::ReplacementCountMismatch {
                expected,
                actual,
            } => Fault::ReplacementCountMismatch { expected, actual },
            EmitError::LabelRedefinition { label, offset } => Fault::LabelRedefinition {
                label: label@,
                offset,
            },
            EmitError::AlreadyResolved => Fault::AlreadyResolved,
        }
    }
}

} // verus!
