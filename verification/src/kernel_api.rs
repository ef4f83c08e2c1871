//! The interface between user programs and the kernel: call numbers and
//! status codes.

use vstd::prelude::*;
use vstd::std_specs::convert::FromSpecImpl;
use crate::ioerr::ErrorKind;

pub mod syscall;

verus! {

/// Number of the call that sleeps.
pub const NR_SLEEP: usize = 1;

/// Number of the call that ends the calling process.
pub const NR_EXIT: usize = 2;

/// Number of the call that reads the time.
pub const NR_TIME: usize = 3;

/// Number of the call that returns the id of the calling process.
pub const NR_GETPID: usize = 4;

/// Number of the call that writes a byte to the console.
pub const NR_WRITE: usize = 5;

/// The status of a system call.
#[derive(Debug, Copy, Clone, PartialEq, Eq, Structural)]
pub enum OsError {
    Success,
    Unknown,
    NoEntry,
    NoMemory,
    NoVmSpace,
    NoAccess,
    BadAddress,
    FileExists,
    InvalidArgument,
    IoError,
    IoErrorEof,
    IoErrorInvalidData,
    IoErrorInvalidInput,
    IoErrorTimedOut,
    InvalidSocket,
    IllegalSocketOperation,
}

/// The result of an operation that can fail with a status.
pub type OsResult<T> = Result<T, OsError>;

impl OsError {
    /// The number that stands for the status in the status register.
    /// Success is 0.
    pub open spec fn code_of(self) -> u64 {
        match self {
            OsError::Success => 0,
            OsError::Unknown => 1,
            OsError::NoEntry => 10,
            OsError::NoMemory => 20,
            OsError::NoVmSpace => 30,
            OsError::NoAccess => 40,
            OsError::BadAddress => 50,
            OsError::FileExists => 60,
            OsError::InvalidArgument => 70,
            OsError::IoError => 101,
            OsError::IoErrorEof => 102,
            OsError::IoErrorInvalidData => 103,
            OsError::IoErrorInvalidInput => 104,
            OsError::IoErrorTimedOut => 105,
            OsError::InvalidSocket => 200,
            OsError::IllegalSocketOperation => 201,
        }
    }

    /// The status that the number `code` stands for; `Unknown` for a number
    /// that stands for none.
    pub open spec fn of_code(code: u64) -> OsError {
        if code == 0 {
            OsError::Success
        } else if code == 10 {
            OsError::NoEntry
        } else if code == 20 {
            OsError::NoMemory
        } else if code == 30 {
            OsError::NoVmSpace
        } else if code == 40 {
            OsError::NoAccess
        } else if code == 50 {
            OsError::BadAddress
        } else if code == 60 {
            OsError::FileExists
        } else if code == 70 {
            OsError::InvalidArgument
        } else if code == 101 {
            OsError::IoError
        } else if code == 102 {
            OsError::IoErrorEof
        } else if code == 103 {
            OsError::IoErrorInvalidData
        } else if code == 104 {
            OsError::IoErrorInvalidInput
        } else if code == 105 {
            OsError::IoErrorTimedOut
        } else if code == 200 {
            OsError::InvalidSocket
        } else if code == 201 {
            OsError::IllegalSocketOperation
        } else {
            OsError::Unknown
        }
    }

    /// The status that an input or output failure of kind `kind` is
    /// reported with.
    pub open spec fn of_io(kind: ErrorKind) -> OsError {
        match kind {
            ErrorKind::UnexpectedEof => OsError::IoErrorEof,
            ErrorKind::InvalidData => OsError::IoErrorInvalidData,
            ErrorKind::InvalidInput => OsError::IoErrorInvalidInput,
            ErrorKind::TimedOut => OsError::IoErrorTimedOut,
            ErrorKind::NotFound => OsError::NoEntry,
            _ => OsError::IoError,
        }
    }

    /// The number that stands for the status in the status register.
    pub fn code(self) -> (r: u64)
        ensures
            r == self.code_of(),
    {
        match self {
            OsError::Success => 0,
            OsError::Unknown => 1,
            OsError::NoEntry => 10,
            OsError::NoMemory => 20,
            OsError::NoVmSpace => 30,
            OsError::NoAccess => 40,
            OsError::BadAddress => 50,
            OsError::FileExists => 60,
            OsError::InvalidArgument => 70,
            OsError::IoError => 101,
            OsError::IoErrorEof => 102,
            OsError::IoErrorInvalidData => 103,
            OsError::IoErrorInvalidInput => 104,
            OsError::IoErrorTimedOut => 105,
            OsError::InvalidSocket => 200,
            OsError::IllegalSocketOperation => 201,
        }
    }
}

/// Reading back the number of a status gives the status.
pub proof fn lemma_code_round_trip(status: OsError)
    ensures
        OsError::of_code(status.code_of()) == status,
{
}

impl From<u64> for OsError {
    fn from(code: u64) -> (r: OsError) {
        match code {
            0 => OsError::Success,
            10 => OsError::NoEntry,
            20 => OsError::NoMemory,
            30 => OsError::NoVmSpace,
            40 => OsError::NoAccess,
            50 => OsError::BadAddress,
            60 => OsError::FileExists,
            70 => OsError::InvalidArgument,
            101 => OsError::IoError,
            102 => OsError::IoErrorEof,
            103 => OsError::IoErrorInvalidData,
            104 => OsError::IoErrorInvalidInput,
            105 => OsError::IoErrorTimedOut,
            200 => OsError::InvalidSocket,
            201 => OsError::IllegalSocketOperation,
            _ => OsError::Unknown,
        }
    }
}

impl FromSpecImpl<u64> for OsError {
    open spec fn obeys_from_spec() -> bool {
        true
    }

    open spec fn from_spec(code: u64) -> OsError {
        OsError::of_code(code)
    }
}

impl From<ErrorKind> for OsError {
    fn from(kind: ErrorKind) -> (r: OsError) {
        match kind {
            ErrorKind::UnexpectedEof => OsError::IoErrorEof,
            ErrorKind::InvalidData => OsError::IoErrorInvalidData,
            ErrorKind::InvalidInput => OsError::IoErrorInvalidInput,
            ErrorKind::TimedOut => OsError::IoErrorTimedOut,
            ErrorKind::NotFound => OsError::NoEntry,
            _ => OsError::IoError,
        }
    }
}

impl FromSpecImpl<ErrorKind> for OsError {
    open spec fn obeys_from_spec() -> bool {
        true
    }

    open spec fn from_spec(kind: ErrorKind) -> OsError {
        OsError::of_io(kind)
    }
}

} // verus!
