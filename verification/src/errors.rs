//! Failure conditions of the decoder.

use vstd::prelude::*;

verus! {

/// Every way a decode can fail. All failures are returned to the caller as a
/// typed result; no decoding path aborts the process.
#[derive(Clone, Copy, Debug, PartialEq, Eq, Structural)]
pub enum PgmError {
    /// A numeric token was empty, held a non-digit byte, or overflowed the
    /// destination width.
    MalformedNumber,
    /// The buffer was exhausted before all four header fields were read.
    IncompleteHeader,
    /// The magic number is not among the seven recognized ones.
    UnsupportedFormat,
    /// The magic number is recognized but its body decoder is not implemented
    /// (bitmap, pixmap and extended variants).
    NotImplemented,
    /// A binary body is not exactly `width * height * bytes_per_sample` bytes.
    TruncatedData,
}

} // verus!
