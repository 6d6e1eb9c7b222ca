//! The error type shared by every operation.
use vstd::prelude::*;

verus! {

/// The kind of failure an operation reports.
#[derive(Debug, Clone, Copy, PartialEq, Eq, Structural)]
pub enum PixelifyError {
    /// A size parameter is zero or otherwise unusable.
    InvalidArgument,
    /// A coordinate lies outside the buffer.
    OutOfBounds,
    /// The codec could not decode the input bytes into an RGBA raster.
    DecodeFailure,
    /// The codec could not encode the raster.
    EncodeFailure,
}

/// An error carrying the name of the failing operation, its kind and a
/// human-readable message.
#[derive(Debug)]
pub struct ImageProcessingError {
    pub op: &'static str,
    pub kind: PixelifyError,
    pub message: String,
}

impl ImageProcessingError {
    pub fn failed(op: &'static str, kind: PixelifyError, message: &str) -> (r: Self)
        ensures
            r.op == op,
            r.kind == kind,
            r.message@ == message@,
    {
        ImageProcessingError { op, kind, message: message.to_owned() }
    }
}

} // verus!
