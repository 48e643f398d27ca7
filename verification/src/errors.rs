//! The error taxonomy of the toolkit. Every failure is a typed, local,
//! recoverable condition surfaced to the caller; nothing here aborts the
//! process.

use vstd::prelude::*;

verus! {

/// A malformed or truncated container was handed to the codec's loader.
#[derive(Clone, Copy, Debug, PartialEq, Eq, Structural)]
pub struct FormatError;

/// An internal inconsistency of an image was detected at serialize time,
/// such as a section-header list whose length differs from the payload
/// list's, or declared region addresses that cannot be laid out in order.
#[derive(Clone, Copy, Debug, PartialEq, Eq, Structural)]
pub struct StructuralError;

/// The linker met an object-module construct it cannot classify: a symbol
/// whose storage class is none of the supported ones.
#[derive(Clone, Copy, Debug, PartialEq, Eq, Structural)]
pub struct UnsupportedInputError {
    /// The storage class that could not be classified.
    pub storage_class: u8,
}

/// A truncated or malformed patch stream.
#[derive(Clone, Copy, Debug, PartialEq, Eq, Structural)]
pub struct PatchFormatError;

/// The digest of a base image did not match the expected constant.
#[derive(Clone, Copy, Debug, PartialEq, Eq, Structural)]
pub struct IntegrityError;

/// A failure of the orchestration pipeline: either the integrity gate
/// refused the base image, or one patch stream was malformed. The patch
/// variant names the index of the stream that failed.
#[derive(Clone, Copy, Debug, PartialEq, Eq, Structural)]
pub enum PipelineError {
    /// The base image's digest did not match the expected constant.
    Integrity(IntegrityError),
    /// The patch stream at `index` was malformed or truncated.
    Patch { index: usize, error: PatchFormatError },
}

} // verus!
