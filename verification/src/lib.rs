//! An append-only machine-code buffer with symbolic labels and deferred
//! jump patches.
//!
//! An encoder appends instruction bytes in program order. Where a jump
//! targets a label whose offset is not known yet, it reserves placeholder
//! bytes and leaves a patch request behind. Once every label is defined,
//! a single resolution pass fills the placeholders in.

pub mod error;
pub mod laws;
pub mod model;
pub mod recorder;

pub use crate::error::EmitError;
pub use crate::recorder::{CodeEmitRecorder, JumpInstPatch};
