use vstd::prelude::*;

verus! {

/// Failures that the decrypt path can report.
///
/// A key of the wrong length is rejected by the caller before the core is
/// entered, so it has no variant here.
#[derive(Clone, Copy, Debug, PartialEq, Eq, Structural)]
pub enum CryptoError {
    /// The input handed to the block transform is not a whole number of
    /// 16-byte blocks.
    AlignmentViolation,
    /// The trailing byte of a decoded buffer is not a usable padding length,
    /// so the original content length cannot be recovered.
    PaddingAmbiguity,
}

} // verus!
