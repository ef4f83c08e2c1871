//! What the file system asks of the storage below it.

use vstd::prelude::*;
use crate::ioerr::ErrorKind;

verus! {

/// What a read that returned `r` handed back, given the buffer before and
/// after it: the bytes that were appended, or the error.
pub open spec fn read_outcome(before: Seq<u8>, after: Seq<u8>, r: Result<usize, ErrorKind>) -> Result<
    Seq<u8>,
    ErrorKind,
> {
    match r {
        Ok(_) => Ok(after.subrange(before.len() as int, after.len() as int)),
        Err(kind) => Err(kind),
    }
}

/// A device that is read and written in sectors.
pub trait BlockDevice: Sized {
    /// The device may give `size` as the size of its sectors. A device that
    /// says nothing of its answers allows every answer.
    open spec fn sized(&self, size: u64) -> bool {
        true
    }

    /// What one read of sector `n` may do: leave the device as `then`, and
    /// hand back the bytes of `outcome` or fail with its error. A device
    /// that says nothing of its reads allows every outcome.
    open spec fn reads(&self, n: u64, then: Self, outcome: Result<Seq<u8>, ErrorKind>) -> bool {
        true
    }

    /// The size of a sector in bytes.
    fn sector_size(&self) -> (r: u64)
        ensures
            self.sized(r),
    ;

    /// Reads sector `n` and appends what was read to `buf`. Returns the
    /// number of bytes that were appended.
    fn read_sector(&mut self, n: u64, buf: &mut Vec<u8>) -> (r: Result<usize, ErrorKind>)
        ensures
            r matches Ok(count) ==> final(buf)@.len() == old(buf)@.len() + count && final(buf)@.subrange(
                0,
                old(buf)@.len() as int,
            ) == old(buf)@,
            r is Err ==> final(buf)@ == old(buf)@,
            old(self).reads(n, *final(self), read_outcome(old(buf)@, final(buf)@, r)),
    ;

    /// Writes `buf` to sector `n`. Returns the number of bytes that were
    /// written.
    fn write_sector(&mut self, n: u64, buf: &Vec<u8>) -> (r: Result<usize, ErrorKind>);
}

} // verus!
