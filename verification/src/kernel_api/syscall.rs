//! What a user program computes before and after it traps into the kernel.

use vstd::prelude::*;
use vstd::string::StringSliceAdditionalSpecFns;
use crate::kernel_api::{OsError, OsResult};

verus! {

/// The argument of the sleep call for a span of `millis` milliseconds.
/// A span that does not fit the argument register is refused with
/// `InvalidArgument`.
pub fn sleep_argument(millis: u128) -> (r: OsResult<u64>)
    ensures
        r == (if millis > u64::MAX {
            Err::<u64, OsError>(OsError::InvalidArgument)
        } else {
            Ok(millis as u64)
        }),
{
    if millis > u64::MAX as u128 {
        Err(OsError::InvalidArgument)
    } else {
        Ok(millis as u64)
    }
}

/// The result of a call that came back with status `ecode` and value
/// `value`: the value if the status is `Success`, and the status otherwise.
pub fn err_or(ecode: u64, value: u64) -> (r: OsResult<u64>)
    ensures
        r == (if OsError::of_code(ecode) == OsError::Success {
            Ok::<u64, OsError>(value)
        } else {
            Err(OsError::of_code(ecode))
        }),
{
    let e = OsError::from(ecode);
    match e {
        OsError::Success => Ok(value),
        _ => Err(e),
    }
}

/// The bytes that printing `text` writes to the console, one call of
/// `write` for each, in order.
pub fn vprint(text: &str) -> (r: Vec<u8>)
    ensures
        r@ == text.spec_bytes(),
{
    let bytes = text.as_bytes();
    let n = bytes.len();
    let mut out: Vec<u8> = Vec::new();
    let mut i: usize = 0;
    while i < n
        invariant
            i <= n,
            n == bytes@.len(),
            out@ == bytes@.subrange(0, i as int),
        decreases n - i,
    {
        out.push(bytes[i]);
        i = i + 1;
        assert(out@ =~= bytes@.subrange(0, i as int));
    }
    assert(out@ =~= bytes@);
    out
}

} // verus!
