use vstd::prelude::*;

verus! {

/// Failure of an I/O request against an image.
#[derive(Debug, Clone, Copy, PartialEq, Eq, Structural)]
pub enum IOError {
    /// The underlying file could not be read or written.
    GenericError,
    /// No free cluster is left to allocate.
    NoSpaceLeft,
    /// An on-disk structure is malformed or misaligned.
    InvalidMetadata,
    /// The image uses a feature this engine does not handle.
    UnsupportedImageFeature,
}

/// Relies on libc::EIO: an errno constant, nonzero and not `i32::MIN` on every target
/// (positive on most, negative on some).
#[verifier::external_body]
fn errno_eio() -> (r: i32)
    ensures
        r != 0,
        r != i32::MIN,
{
    libc::EIO
}

/// Relies on libc::ENOSPC: an errno constant, nonzero and not `i32::MIN` on every target
/// (positive on most, negative on some).
#[verifier::external_body]
fn errno_enospc() -> (r: i32)
    ensures
        r != 0,
        r != i32::MIN,
{
    libc::ENOSPC
}

/// Relies on libc::ENOTSUP: an errno constant, nonzero and not `i32::MIN` on every target
/// (positive on most, negative on some).
#[verifier::external_body]
fn errno_enotsup() -> (r: i32)
    ensures
        r != 0,
        r != i32::MIN,
{
    libc::ENOTSUP
}

impl IOError {
    /// The errno value that the block layer reports for this error: the negated libc
    /// constant (EIO, ENOSPC or ENOTSUP).
    pub fn to_errno(&self) -> (r: i32)
        ensures
            r != 0,
    {
        match *self {
            IOError::GenericError => -errno_eio(),
            IOError::NoSpaceLeft => -errno_enospc(),
            IOError::InvalidMetadata => -errno_eio(),
            IOError::UnsupportedImageFeature => -errno_enotsup(),
        }
    }
}

} // verus!
