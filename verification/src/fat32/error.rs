//! Why a file system could not be opened.

use vstd::prelude::*;
use vstd::std_specs::convert::FromSpecImpl;
use crate::ioerr::ErrorKind;

verus! {

/// Why a file system could not be opened.
#[derive(Debug, Copy, Clone, PartialEq, Eq, Structural)]
pub enum Error {
    /// The master boot record could not be read.
    Mbr(crate::fat32::mbr::Error),
    /// Reading from the device failed.
    Io(ErrorKind),
    /// A sector does not end in the signature it should end in.
    BadSignature,
    /// The disk has no FAT32 partition.
    NotFound,
}

impl From<crate::fat32::mbr::Error> for Error {
    fn from(error: crate::fat32::mbr::Error) -> (r: Error) {
        Error::Mbr(error)
    }
}

impl FromSpecImpl<crate::fat32::mbr::Error> for Error {
    open spec fn obeys_from_spec() -> bool {
        true
    }

    open spec fn from_spec(error: crate::fat32::mbr::Error) -> Error {
        Error::Mbr(error)
    }
}

impl From<ErrorKind> for Error {
    fn from(kind: ErrorKind) -> (r: Error) {
        Error::Io(kind)
    }
}

impl FromSpecImpl<ErrorKind> for Error {
    open spec fn obeys_from_spec() -> bool {
        true
    }

    open spec fn from_spec(kind: ErrorKind) -> Error {
        Error::Io(kind)
    }
}

} // verus!
