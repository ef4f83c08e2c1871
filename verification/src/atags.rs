//! The tags that the boot loader leaves in memory: a list of records, each
//! of which begins with its length in words and its kind.

use vstd::prelude::*;

verus! {

/// Kind of the tag that ends the list.
pub const ATAG_NONE: u32 = 0;

/// Kind of the tag that describes main memory.
pub const ATAG_MEM: u32 = 0x5441_0002;

/// Granularity to which the start of the heap is rounded up.
pub const HEAP_ALIGN: u64 = 0x1000;

/// What the walk over the tags in `words` from position `at` on finds: the
/// size and the start of main memory, from the first tag that describes
/// memory; `None` if the list ends, or runs out of `words`, before such a
/// tag.
pub open spec fn memory_from(words: Seq<u32>, at: int) -> Option<(u32, u32)>
    decreases words.len() - at,
{
    if at < 0 || at + 2 > words.len() {
        None
    } else if words[at + 1] == ATAG_NONE || words[at] == 0 {
        None
    } else if words[at + 1] == ATAG_MEM {
        if at + 4 <= words.len() {
            Some((words[at + 2], words[at + 3]))
        } else {
            None
        }
    } else if at + words[at] <= words.len() {
        memory_from(words, at + words[at])
    } else {
        None
    }
}

/// The size and the start of main memory as the tags in `words` tell them,
/// or `None` if no tag tells them.
pub fn find_memory(words: &[u32]) -> (r: Option<(u32, u32)>)
    ensures
        r == memory_from(words@, 0),
{
    let n = words.len();
    let mut at: usize = 0;
    while at < n
        invariant
            n == words@.len(),
            memory_from(words@, at as int) == memory_from(words@, 0),
        decreases n - at,
    {
        if n - at < 2 {
            return None;
        }
        let size = words[at];
        let kind = words[at + 1];
        if kind == ATAG_NONE || size == 0 {
            return None;
        }
        if kind == ATAG_MEM {
            if n - at < 4 {
                return None;
            }
            return Some((words[at + 2], words[at + 3]));
        }
        if size as usize >= n - at {
            assert(memory_from(words@, n as int) is None);
            return None;
        }
        at = at + size as usize;
    }
    None
}

/// The region for the heap in a machine whose main memory has `size` bytes
/// from `start` on and whose kernel image ends at `binary_end`: from the
/// end of the image, rounded up to 4 KiB, to the end of main memory.
pub fn heap_region(binary_end: u64, start: u32, size: u32) -> (r: (u64, u64))
    requires
        binary_end <= u64::MAX - HEAP_ALIGN,
    ensures
        r.0 == crate::allocator::util::align_up_spec(binary_end as int, HEAP_ALIGN as int),
        r.1 == start + size,
{
    let rem = binary_end % HEAP_ALIGN;
    let begin = if rem == 0 {
        binary_end
    } else {
        binary_end - rem + HEAP_ALIGN
    };
    (begin, start as u64 + size as u64)
}

} // verus!
