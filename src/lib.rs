use vstd::prelude::*;

pub mod archive;
pub mod binary;
pub mod formats;
pub mod helpers;
pub mod types;

verus! {

/// What can go wrong while reading, checking, extracting or writing an archive.
#[derive(Debug, Clone, Copy, PartialEq, Eq, Structural)]
pub enum Error {
    /// A signature or magic value is absent.
    NotFound,
    /// The bytes break the structure of the format.
    Malformed,
    /// A stored checksum does not match the data.
    IntegrityMismatch,
    /// The operation is not supported for this entry or format.
    Unsupported,
    /// The password does not open the archive.
    WrongCredential,
    /// An entry index beyond the end of the entry list.
    IndexOutOfRange,
    /// An entry path that would leave the output directory.
    PathTraversal,
}

} // verus!
