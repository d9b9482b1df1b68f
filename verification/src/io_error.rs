//! I/O errors that the gateway raises itself.

use vstd::prelude::*;

verus! {

/// The standard library's I/O error, carried through as it is.
#[verifier::external_type_specification]
#[verifier::external_body]
pub struct ExIoError(std::io::Error);

/// The kinds of I/O error that the gateway tells apart or raises.
#[derive(Debug, Clone, Copy, PartialEq, Eq, Structural)]
pub enum IoErrorKind {
    /// The operation would have to wait.
    WouldBlock,
    /// The data read is not what it should be.
    InvalidData,
    /// Any other kind.
    Other,
}

/// The I/O error of a kind with a message.
pub uninterp spec fn io_error(kind: IoErrorKind, message: Seq<char>) -> std::io::Error;

/// [`std::io::Error::new`] makes an error out of a kind and a message, and
/// nothing else decides which.
#[verifier::external_body]
pub(crate) fn new_io_error(kind: IoErrorKind, message: String) -> (e: std::io::Error)
    ensures
        e == io_error(kind, message@),
{
    let kind = match kind {
        IoErrorKind::WouldBlock => std::io::ErrorKind::WouldBlock,
        IoErrorKind::InvalidData => std::io::ErrorKind::InvalidData,
        IoErrorKind::Other => std::io::ErrorKind::Other,
    };
    std::io::Error::new(kind, message)
}

} // verus!
