//! The ways in which reading an archive can fail.

use vstd::prelude::*;

verus! {

/// Why an archive could not be decoded, or an entry in it not be found.
#[derive(Clone, Copy, Debug, PartialEq, Eq, Structural)]
pub enum WadError {
    /// The stream does not start with the archive signature.
    UnsupportedFormat,
    /// A table is inconsistent: a read ran past the end of the stream, a
    /// length prefix was negative, or a type tag was not recognised.
    MalformedArchive,
    /// A file named in the folder table has no entry in the flat index.
    MissingIndexEntry,
}

} // verus!
