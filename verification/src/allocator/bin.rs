//! A size-class allocator over one contiguous region.
//!
//! Class `k` holds blocks of `2^(k+3)` bytes. A request is served from the
//! free list of its class if that list holds a block that meets the
//! alignment, and is carved from the unused end of the region otherwise.
//! A freed block goes back to the list of its class and is never merged or
//! split.

use vstd::prelude::*;
use vstd::arithmetic::power2::{pow2, is_pow2, lemma_pow2_pos, lemma_pow2_unfold, lemma2_to64};
use std::collections::VecDeque;
use crate::allocator::util::{align_up_spec, lemma_align_up};

verus! {

/// Number of size classes.
pub const MAX_BINS: usize = 32;

/// The least `e` with `n <= 2^e`.
pub open spec fn ceil_log2(n: nat) -> nat
    decreases n,
{
    if n <= 1 {
        0
    } else {
        1 + ceil_log2((n + 1) / 2)
    }
}

/// The size class that serves blocks of `size` bytes: `ceil_log2(size) - 3`,
/// and class 0 for everything up to eight bytes.
pub open spec fn bin_of(size: nat) -> nat {
    let e = ceil_log2(size);
    if e <= 3 {
        0
    } else {
        (e - 3) as nat
    }
}

/// The size class of a request: that of the larger of size and alignment.
pub open spec fn class_of(size: u64, align: u64) -> nat {
    bin_of(if size >= align { size as nat } else { align as nat })
}

/// The block size of class `bin`.
pub open spec fn bin_size(bin: nat) -> nat {
    pow2(bin + 3)
}

/// `ceil_log2(n)` is at most `e` exactly when `n` is at most `2^e`.
pub proof fn lemma_ceil_log2(n: nat, e: nat)
    ensures
        n <= pow2(e) <==> ceil_log2(n) <= e,
    decreases e,
{
    lemma_pow2_pos(e);
    if e == 0 {
        assert(pow2(0) == 1) by {
            lemma2_to64();
        }
    } else {
        lemma_pow2_unfold(e);
        if n > 1 {
            lemma_ceil_log2((n + 1) / 2, (e - 1) as nat);
        }
    }
}

/// The class of a size is the least class whose blocks hold it.
pub proof fn lemma_bin_of(size: nat)
    ensures
        size <= bin_size(bin_of(size)),
        bin_of(size) > 0 ==> size > bin_size((bin_of(size) - 1) as nat),
{
    let e = ceil_log2(size);
    lemma_ceil_log2(size, e);
    if e <= 3 {
        lemma_ceil_log2(size, 3);
    } else {
        lemma_ceil_log2(size, (e - 1) as nat);
    }
}

/// An alignment that does not exceed the size leaves the class to the size.
pub proof fn lemma_class_of_small_align(size: u64, align: u64)
    requires
        align <= size,
    ensures
        class_of(size, align) == bin_of(size as nat),
        class_of(size, size) == class_of(size, 1),
{
}

/// The size class for `size` bytes.
pub fn map_to_bin(size: u64) -> (bin: usize)
    ensures
        bin == bin_of(size as nat),
{
    let mut b: u64 = 3;
    proof {
        lemma2_to64();
        assert(1u64 << 3 == 8) by (bit_vector);
    }
    while b < 64 && size > (1u64 << b)
        invariant
            3 <= b <= 64,
            forall|j: nat| 3 <= j < b ==> size > pow2(j),
            b < 64 ==> (1u64 << b) == pow2(b as nat),
        decreases 64 - b,
    {
        b = b + 1;
        proof {
            if b < 64 {
                vstd::bits::lemma_u64_pow2_no_overflow(b as nat);
                vstd::bits::lemma_u64_shl_is_mul(1, b);
            }
        }
    }
    proof {
        let e = ceil_log2(size as nat);
        if b == 64 {
            assert(size > pow2(63));
            lemma_ceil_log2(size as nat, 63);
            lemma_ceil_log2(size as nat, 64);
        } else {
            lemma_ceil_log2(size as nat, b as nat);
            if b > 3 {
                lemma_ceil_log2(size as nat, (b - 1) as nat);
            }
        }
    }
    (b - 3) as usize
}

/// The block size of class `bin`.
pub fn size_for_bin(bin: usize) -> (size: u64)
    requires
        bin + 3 < 64,
    ensures
        size == bin_size(bin as nat),
{
    let shift: u64 = 3 + bin as u64;
    proof {
        vstd::bits::lemma_u64_pow2_no_overflow(shift as nat);
        vstd::bits::lemma_u64_shl_is_mul(1, shift);
    }
    1u64 << shift
}

/// `n` and `n / 2` agree on having a single bit set.
proof fn lemma_single_bit_halves(n: u64)
    by (bit_vector)
    requires
        n > 1,
    ensures
        (n & ((n - 1) as u64)) == 0 <==> (n % 2 == 0 && ((n / 2) & ((n / 2 - 1) as u64)) == 0),
{
}

/// A positive number is a power of two exactly when it shares no bit with
/// its predecessor.
proof fn lemma_single_bit(n: u64)
    requires
        n > 0,
    ensures
        (n & ((n - 1) as u64)) == 0 <==> is_pow2(n as int),
    decreases n,
{
    reveal(is_pow2);
    if n == 1 {
        assert(1u64 & ((1u64 - 1) as u64) == 0) by (bit_vector);
    } else {
        lemma_single_bit_halves(n);
        lemma_single_bit(n / 2);
    }
}

/// Whether `n` is a power of two.
pub fn power_of_two(n: u64) -> (r: bool)
    ensures
        r == is_pow2(n as int),
{
    if n == 0 {
        proof {
            reveal(is_pow2);
        }
        false
    } else {
        proof {
            lemma_single_bit(n);
        }
        (n & (n - 1)) == 0
    }
}

/// One past the last byte of the block of class `k` at `addr`.
pub open spec fn block_end(addr: u64, k: nat) -> int {
    addr + bin_size(k)
}

/// The block of class `ka` at `a` and the block of class `kb` at `b` share
/// no byte.
pub open spec fn disjoint(a: u64, ka: nat, b: u64, kb: nat) -> bool {
    block_end(a, ka) <= b || block_end(b, kb) <= a
}

/// The position of the first address in `list` that is a multiple of
/// `align`, or the length of `list` if there is none.
pub open spec fn first_aligned(list: Seq<u64>, align: u64) -> int
    decreases list.len(),
{
    if list.len() == 0 {
        0
    } else if list[0] % align == 0 {
        0
    } else {
        1 + first_aligned(list.drop_first(), align)
    }
}

/// The number of addresses in `list` that are multiples of `align`.
pub open spec fn count_aligned(list: Seq<u64>, align: u64) -> nat
    decreases list.len(),
{
    if list.len() == 0 {
        0
    } else if list[0] % align == 0 {
        1 + count_aligned(list.drop_first(), align)
    } else {
        count_aligned(list.drop_first(), align)
    }
}

/// The number of blocks of `size` bytes, each aligned to `align`, that can
/// still be carved from `[current, end)` one after the other.
pub open spec fn bump_count(current: int, end: int, align: int, size: int) -> nat
    decreases end - current,
{
    let start = align_up_spec(current, align);
    if 0 <= current && 0 < align && 0 < size && start + size <= end {
        proof {
            lemma_align_up(current, align);
        }
        1 + bump_count(start + size, end, align, size)
    } else {
        0
    }
}

/// What `first_aligned` returns: a position that no aligned address precedes
/// and that holds an aligned address, unless it is the length.
pub proof fn lemma_first_aligned(list: Seq<u64>, align: u64)
    ensures
        0 <= first_aligned(list, align) <= list.len(),
        forall|j: int| 0 <= j < first_aligned(list, align) ==> list[j] % align != 0,
        first_aligned(list, align) < list.len() ==> list[first_aligned(list, align)] % align == 0,
    decreases list.len(),
{
    if list.len() > 0 && list[0] % align != 0 {
        let rest = list.drop_first();
        lemma_first_aligned(rest, align);
        assert forall|j: int| 0 <= j < first_aligned(list, align) implies list[j] % align != 0 by {
            if j > 0 {
                assert(list[j] == rest[j - 1]);
            }
        }
    }
}

/// A position with the two properties of `lemma_first_aligned` is the one
/// that `first_aligned` returns.
pub proof fn lemma_first_aligned_unique(list: Seq<u64>, align: u64, i: int)
    requires
        0 <= i <= list.len(),
        forall|j: int| 0 <= j < i ==> list[j] % align != 0,
        i < list.len() ==> list[i] % align == 0,
    ensures
        first_aligned(list, align) == i,
{
    lemma_first_aligned(list, align);
}

/// Putting an address in front of a list adds it to the count if it is
/// aligned.
pub proof fn lemma_count_aligned_push_front(list: Seq<u64>, align: u64, p: u64)
    ensures
        count_aligned(seq![p] + list, align) == count_aligned(list, align) + (if p % align == 0 {
            1nat
        } else {
            0nat
        }),
{
    let l = seq![p] + list;
    assert(l.drop_first() =~= list);
}

/// Taking an address out of a list removes it from the count if it is
/// aligned.
pub proof fn lemma_count_aligned_remove(list: Seq<u64>, align: u64, i: int)
    requires
        0 <= i < list.len(),
    ensures
        count_aligned(list, align) == count_aligned(list.remove(i), align) + (if list[i] % align
            == 0 {
            1nat
        } else {
            0nat
        }),
    decreases list.len(),
{
    if i == 0 {
        assert(list.remove(0) =~= list.drop_first());
    } else {
        lemma_count_aligned_remove(list.drop_first(), align, i - 1);
        assert(list.remove(i).drop_first() =~= list.drop_first().remove(i - 1));
        assert(list.remove(i)[0] == list[0]);
    }
}

/// The abstract state of the allocator.
pub struct Heap {
    /// The free lists by class, each with the block freed last in front.
    pub bins: Seq<Seq<u64>>,
    /// The high-water mark: nothing at or above it was ever handed out.
    pub current: u64,
    /// The end of the region.
    pub end: u64,
    /// The blocks that were handed out and not given back, with their class.
    pub live: Map<u64, nat>,
}

impl Heap {
    /// The heap over `[start, end)` from which nothing was handed out yet.
    pub open spec fn empty(start: u64, end: u64) -> Heap {
        Heap {
            bins: Seq::new(MAX_BINS as nat, |k: int| Seq::<u64>::empty()),
            current: start,
            end,
            live: Map::empty(),
        }
    }

    /// There is one free list for each class.
    pub open spec fn well_formed(self) -> bool {
        self.bins.len() == MAX_BINS
    }

    /// Position `i` of free list `k` exists.
    pub open spec fn is_free(self, k: int, i: int) -> bool {
        0 <= k < self.bins.len() && 0 <= i < self.bins[k].len()
    }

    /// The state after a request for `size` bytes aligned to `align`, and
    /// the address that the request is answered with.
    pub open spec fn allocate(self, size: u64, align: u64) -> (Heap, Option<u64>) {
        let k = class_of(size, align);
        if k >= MAX_BINS {
            (self, None)
        } else {
            let list = self.bins[k as int];
            let i = first_aligned(list, align);
            if i < list.len() {
                (
                    Heap {
                        bins: self.bins.update(k as int, list.remove(i)),
                        live: self.live.insert(list[i], k),
                        ..self
                    },
                    Some(list[i]),
                )
            } else {
                let start = align_up_spec(self.current as int, align as int);
                if start + bin_size(k) > self.end {
                    (self, None)
                } else {
                    (
                        Heap {
                            current: (start + bin_size(k)) as u64,
                            live: self.live.insert(start as u64, k),
                            ..self
                        },
                        Some(start as u64),
                    )
                }
            }
        }
    }

    /// The state after the block at `ptr`, requested with `size` and
    /// `align`, is given back.
    pub open spec fn dealloc(self, ptr: u64, size: u64, align: u64) -> Heap {
        let k = class_of(size, align);
        Heap {
            bins: self.bins.update(k as int, seq![ptr] + self.bins[k as int]),
            live: self.live.remove(ptr),
            ..self
        }
    }

    /// The number of requests for `size` bytes aligned to `align` that can
    /// be served one after the other with nothing given back in between.
    pub open spec fn capacity(self, size: u64, align: u64) -> nat {
        let k = class_of(size, align);
        if k >= MAX_BINS {
            0
        } else {
            count_aligned(self.bins[k as int], align) + bump_count(
                self.current as int,
                self.end as int,
                align as int,
                bin_size(k) as int,
            )
        }
    }

    /// The block of class `k` at `addr` ends at or below the high-water
    /// mark and the end of the region.
    pub open spec fn below_mark(self, addr: u64, k: nat) -> bool {
        block_end(addr, k) <= self.current && block_end(addr, k) <= self.end
    }

    /// Every free block lies below the high-water mark.
    pub open spec fn free_below_mark(self) -> bool {
        forall|k: int, i: int|
            #![trigger self.bins[k][i]]
            self.is_free(k, i) ==> self.below_mark(self.bins[k][i], k as nat)
    }

    /// Every live block lies below the high-water mark.
    pub open spec fn live_below_mark(self) -> bool {
        forall|a: u64| #[trigger]
            self.live.contains_key(a) ==> self.below_mark(a, self.live[a])
    }

    /// No two free blocks overlap.
    pub open spec fn free_apart(self) -> bool {
        forall|k: int, i: int, k2: int, i2: int|
            #![trigger self.bins[k][i], self.bins[k2][i2]]
            self.is_free(k, i) && self.is_free(k2, i2) && (k != k2 || i != i2) ==> disjoint(
                self.bins[k][i],
                k as nat,
                self.bins[k2][i2],
                k2 as nat,
            )
    }

    /// No two live blocks overlap.
    pub open spec fn live_apart(self) -> bool {
        forall|a: u64, b: u64|
            #![trigger self.live.contains_key(a), self.live.contains_key(b)]
            self.live.contains_key(a) && self.live.contains_key(b) && a != b ==> disjoint(
                a,
                self.live[a],
                b,
                self.live[b],
            )
    }

    /// No free block overlaps a live block.
    pub open spec fn free_apart_from_live(self) -> bool {
        forall|k: int, i: int, a: u64|
            #![trigger self.bins[k][i], self.live.contains_key(a)]
            self.is_free(k, i) && self.live.contains_key(a) ==> disjoint(
                self.bins[k][i],
                k as nat,
                a,
                self.live[a],
            )
    }

    /// The blocks that were handed out and the blocks on the free lists lie
    /// below the high-water mark, and no two of them overlap.
    pub open spec fn inv(self) -> bool {
        &&& self.well_formed()
        &&& self.free_below_mark()
        &&& self.live_below_mark()
        &&& self.free_apart()
        &&& self.live_apart()
        &&& self.free_apart_from_live()
    }

    /// Every block that is live in `before` is live in this heap too, with
    /// the same class.
    pub open spec fn keeps_live(self, before: Heap) -> bool {
        forall|a: u64| #[trigger]
            before.live.contains_key(a) ==> self.live.contains_key(a) && self.live[a]
                == before.live[a]
    }

    /// The block of class `k` at `a` overlaps no other live block and no
    /// free block.
    pub open spec fn block_is_apart(self, a: u64, k: nat) -> bool {
        &&& forall|b: u64| #[trigger]
            self.live.contains_key(b) && b != a ==> disjoint(a, k, b, self.live[b])
        &&& forall|k2: int, i2: int|
            #![trigger self.bins[k2][i2]]
            self.is_free(k2, i2) ==> disjoint(a, k, self.bins[k2][i2], k2 as nat)
    }
}

/// An address that a request is answered with is a multiple of the
/// requested alignment.
pub proof fn lemma_allocate_aligned(h: Heap, size: u64, align: u64)
    requires
        h.well_formed(),
        align > 0,
    ensures
        h.allocate(size, align).1 matches Some(a) ==> a % align == 0,
{
    let k = class_of(size, align);
    if k < MAX_BINS {
        lemma_first_aligned(h.bins[k as int], align);
        lemma_align_up(h.current as int, align as int);
    }
}

/// A request is answered from the free list of its class, and the
/// high-water mark stays, whenever that list holds an aligned block; the
/// block is the one nearest to the front.
pub proof fn lemma_allocate_prefers_freed(h: Heap, size: u64, align: u64, i: int)
    requires
        h.well_formed(),
        class_of(size, align) < MAX_BINS,
        0 <= i < h.bins[class_of(size, align) as int].len(),
        h.bins[class_of(size, align) as int][i] % align == 0,
    ensures
        h.allocate(size, align).1 is Some,
        h.allocate(size, align).0.current == h.current,
        first_aligned(h.bins[class_of(size, align) as int], align) <= i,
        h.allocate(size, align).1 == Some(
            h.bins[class_of(size, align) as int][first_aligned(
                h.bins[class_of(size, align) as int],
                align,
            )],
        ),
{
    lemma_first_aligned(h.bins[class_of(size, align) as int], align);
}

/// Serving a request keeps the blocks apart and below the high-water mark,
/// which never moves down. The block that is handed out was not live
/// before, and overlaps no other live block and no block that stays free.
pub proof fn lemma_allocate_keeps_inv(h: Heap, size: u64, align: u64)
    requires
        h.inv(),
        align > 0,
    ensures
        h.allocate(size, align).0.inv(),
        h.allocate(size, align).0.current >= h.current,
        h.allocate(size, align).1 matches Some(a) ==> {
            &&& !h.live.contains_key(a)
            &&& h.allocate(size, align).0.block_is_apart(a, class_of(size, align))
        },
{
    let k = class_of(size, align);
    let (post, r) = h.allocate(size, align);
    broadcast use lemma_pow2_pos;

    if k < MAX_BINS {
        let list = h.bins[k as int];
        let i = first_aligned(list, align);
        lemma_first_aligned(list, align);
        if i < list.len() {
            let a = list[i];
            let rest = list.remove(i);
            assert(h.is_free(k as int, i));
            // every position of the new lists is a position of the old ones
            assert forall|k2: int, j: int| post.is_free(k2, j) implies h.is_free(
                k2,
                if k2 == k && j >= i {
                    j + 1
                } else {
                    j
                },
            ) && post.bins[k2][j] == h.bins[k2][if k2 == k && j >= i {
                j + 1
            } else {
                j
            }] by {}
            assert(!h.live.contains_key(a)) by {
                if h.live.contains_key(a) {
                    assert(disjoint(h.bins[k as int][i], k, a, h.live[a]));
                }
            }
            assert(post.free_below_mark()) by {
                assert forall|k2: int, j: int| post.is_free(k2, j) implies post.below_mark(
                    #[trigger] post.bins[k2][j],
                    k2 as nat,
                ) by {
                    let j0 = if k2 == k && j >= i {
                        j + 1
                    } else {
                        j
                    };
                    assert(h.below_mark(h.bins[k2][j0], k2 as nat));
                }
            }
            assert(post.live_below_mark()) by {
                assert forall|b: u64| #[trigger] post.live.contains_key(b) implies post.below_mark(
                    b,
                    post.live[b],
                ) by {
                    if b == a {
                        assert(h.below_mark(h.bins[k as int][i], k));
                    } else {
                        assert(h.live.contains_key(b));
                    }
                }
            }
            assert(post.free_apart()) by {
                assert forall|k2: int, j: int, k3: int, j3: int|
                    post.is_free(k2, j) && post.is_free(k3, j3) && (k2 != k3
                        || j != j3) implies disjoint(
                    #[trigger] post.bins[k2][j],
                    k2 as nat,
                    #[trigger] post.bins[k3][j3],
                    k3 as nat,
                ) by {
                    let j0 = if k2 == k && j >= i {
                        j + 1
                    } else {
                        j
                    };
                    let j1 = if k3 == k && j3 >= i {
                        j3 + 1
                    } else {
                        j3
                    };
                    assert(disjoint(h.bins[k2][j0], k2 as nat, h.bins[k3][j1], k3 as nat));
                }
            }
            assert(post.live_apart()) by {
                assert forall|b: u64, c: u64|
                    #[trigger] post.live.contains_key(b) && #[trigger] post.live.contains_key(c)
                        && b != c implies disjoint(b, post.live[b], c, post.live[c]) by {
                    if b == a {
                        assert(h.live.contains_key(c));
                        assert(disjoint(h.bins[k as int][i], k, c, h.live[c]));
                    } else if c == a {
                        assert(h.live.contains_key(b));
                        assert(disjoint(h.bins[k as int][i], k, b, h.live[b]));
                    } else {
                        assert(h.live.contains_key(b) && h.live.contains_key(c));
                    }
                }
            }
            assert(post.free_apart_from_live()) by {
                assert forall|k2: int, j: int, b: u64|
                    post.is_free(k2, j) && #[trigger] post.live.contains_key(b) implies disjoint(
                    #[trigger] post.bins[k2][j],
                    k2 as nat,
                    b,
                    post.live[b],
                ) by {
                    let j0 = if k2 == k && j >= i {
                        j + 1
                    } else {
                        j
                    };
                    if b == a {
                        assert(disjoint(h.bins[k2][j0], k2 as nat, h.bins[k as int][i], k));
                    } else {
                        assert(h.live.contains_key(b));
                        assert(disjoint(h.bins[k2][j0], k2 as nat, b, h.live[b]));
                    }
                }
            }
            assert(post.block_is_apart(a, k)) by {
                assert forall|b: u64| #[trigger]
                    post.live.contains_key(b) && b != a implies disjoint(a, k, b, post.live[b]) by {
                    assert(h.live.contains_key(b));
                    assert(disjoint(h.bins[k as int][i], k, b, h.live[b]));
                }
                assert forall|k2: int, j: int| post.is_free(k2, j) implies disjoint(
                    a,
                    k,
                    #[trigger] post.bins[k2][j],
                    k2 as nat,
                ) by {
                    let j0 = if k2 == k && j >= i {
                        j + 1
                    } else {
                        j
                    };
                    assert(disjoint(h.bins[k2][j0], k2 as nat, h.bins[k as int][i], k));
                }
            }
        } else {
            let start = align_up_spec(h.current as int, align as int);
            lemma_align_up(h.current as int, align as int);
            if start + bin_size(k) <= h.end {
                let a = start as u64;
                assert(!h.live.contains_key(a)) by {
                    if h.live.contains_key(a) {
                        assert(h.below_mark(a, h.live[a]));
                    }
                }
                assert(post.free_below_mark()) by {
                    assert forall|k2: int, j: int| post.is_free(k2, j) implies post.below_mark(
                        #[trigger] post.bins[k2][j],
                        k2 as nat,
                    ) by {
                        assert(h.below_mark(h.bins[k2][j], k2 as nat));
                    }
                }
                assert(post.live_below_mark()) by {
                    assert forall|b: u64| #[trigger] post.live.contains_key(b) implies post.below_mark(
                        b,
                        post.live[b],
                    ) by {
                        if b != a {
                            assert(h.live.contains_key(b));
                            assert(h.below_mark(b, h.live[b]));
                        }
                    }
                }
                assert(post.free_apart());
                assert(post.live_apart()) by {
                    assert forall|b: u64, c: u64|
                        #[trigger] post.live.contains_key(b) && #[trigger] post.live.contains_key(
                            c,
                        ) && b != c implies disjoint(b, post.live[b], c, post.live[c]) by {
                        if b == a {
                            assert(h.live.contains_key(c));
                            assert(h.below_mark(c, h.live[c]));
                        } else if c == a {
                            assert(h.live.contains_key(b));
                            assert(h.below_mark(b, h.live[b]));
                        } else {
                            assert(h.live.contains_key(b) && h.live.contains_key(c));
                        }
                    }
                }
                assert(post.free_apart_from_live()) by {
                    assert forall|k2: int, j: int, b: u64|
                        post.is_free(k2, j) && #[trigger] post.live.contains_key(
                            b,
                        ) implies disjoint(
                        #[trigger] post.bins[k2][j],
                        k2 as nat,
                        b,
                        post.live[b],
                    ) by {
                        assert(h.below_mark(h.bins[k2][j], k2 as nat));
                        if b != a {
                            assert(h.live.contains_key(b));
                            assert(disjoint(h.bins[k2][j], k2 as nat, b, h.live[b]));
                        }
                    }
                }
                assert(post.block_is_apart(a, k)) by {
                    assert forall|b: u64| #[trigger]
                        post.live.contains_key(b) && b != a implies disjoint(
                        a,
                        k,
                        b,
                        post.live[b],
                    ) by {
                        assert(h.live.contains_key(b));
                        assert(h.below_mark(b, h.live[b]));
                    }
                    assert forall|k2: int, j: int| post.is_free(k2, j) implies disjoint(
                        a,
                        k,
                        #[trigger] post.bins[k2][j],
                        k2 as nat,
                    ) by {
                        assert(h.below_mark(h.bins[k2][j], k2 as nat));
                    }
                }
            }
        }
    }
}

/// Serving a request leaves every live block live.
pub proof fn lemma_allocate_keeps_live(h: Heap, size: u64, align: u64)
    requires
        h.inv(),
        align > 0,
    ensures
        h.allocate(size, align).0.keeps_live(h),
        h.allocate(size, align).0.end == h.end,
{
    lemma_allocate_keeps_inv(h, size, align);
}

/// Giving back a live block with the class it was requested with keeps the
/// blocks apart and below the high-water mark.
pub proof fn lemma_dealloc_keeps_inv(h: Heap, ptr: u64, size: u64, align: u64)
    requires
        h.inv(),
        class_of(size, align) < MAX_BINS,
        h.live.contains_pair(ptr, class_of(size, align)),
    ensures
        h.dealloc(ptr, size, align).inv(),
{
    let k = class_of(size, align);
    let post = h.dealloc(ptr, size, align);
    assert(h.live.contains_key(ptr));
    // every position of the new lists but the front of list k is a position
    // of the old ones
    assert forall|k2: int, j: int| post.is_free(k2, j) && !(k2 == k && j == 0) implies h.is_free(
        k2,
        if k2 == k {
            j - 1
        } else {
            j
        },
    ) && post.bins[k2][j] == h.bins[k2][if k2 == k {
        j - 1
    } else {
        j
    }] by {}
    assert(post.bins[k as int][0] == ptr);
    assert(post.free_below_mark()) by {
        assert forall|k2: int, j: int| post.is_free(k2, j) implies post.below_mark(
            #[trigger] post.bins[k2][j],
            k2 as nat,
        ) by {
            if !(k2 == k && j == 0) {
                let j0 = if k2 == k {
                    j - 1
                } else {
                    j
                };
                assert(h.below_mark(h.bins[k2][j0], k2 as nat));
            } else {
                assert(h.below_mark(ptr, h.live[ptr]));
            }
        }
    }
    assert(post.live_below_mark()) by {
        assert forall|b: u64| #[trigger] post.live.contains_key(b) implies post.below_mark(
            b,
            post.live[b],
        ) by {
            assert(h.live.contains_key(b));
            assert(h.below_mark(b, h.live[b]));
        }
    }
    assert(post.free_apart()) by {
        assert forall|k2: int, j: int, k3: int, j3: int|
            post.is_free(k2, j) && post.is_free(k3, j3) && (k2 != k3 || j != j3) implies disjoint(
            #[trigger] post.bins[k2][j],
            k2 as nat,
            #[trigger] post.bins[k3][j3],
            k3 as nat,
        ) by {
            let j0 = if k2 == k {
                j - 1
            } else {
                j
            };
            let j1 = if k3 == k {
                j3 - 1
            } else {
                j3
            };
            if k2 == k && j == 0 {
                assert(disjoint(h.bins[k3][j1], k3 as nat, ptr, h.live[ptr]));
            } else if k3 == k && j3 == 0 {
                assert(disjoint(h.bins[k2][j0], k2 as nat, ptr, h.live[ptr]));
            } else {
                assert(disjoint(h.bins[k2][j0], k2 as nat, h.bins[k3][j1], k3 as nat));
            }
        }
    }
    assert(post.live_apart()) by {
        assert forall|b: u64, c: u64|
            #[trigger] post.live.contains_key(b) && #[trigger] post.live.contains_key(c) && b
                != c implies disjoint(b, post.live[b], c, post.live[c]) by {
            assert(h.live.contains_key(b) && h.live.contains_key(c));
        }
    }
    assert(post.free_apart_from_live()) by {
        assert forall|k2: int, j: int, b: u64|
            post.is_free(k2, j) && #[trigger] post.live.contains_key(b) implies disjoint(
            #[trigger] post.bins[k2][j],
            k2 as nat,
            b,
            post.live[b],
        ) by {
            assert(h.live.contains_key(b));
            if k2 == k && j == 0 {
                assert(disjoint(ptr, h.live[ptr], b, h.live[b]));
            } else {
                let j0 = if k2 == k {
                    j - 1
                } else {
                    j
                };
                assert(disjoint(h.bins[k2][j0], k2 as nat, b, h.live[b]));
            }
        }
    }
}

/// A request that is answered and then taken back, with the same size and
/// alignment, leaves as many such requests servable as before.
pub proof fn lemma_allocate_dealloc_capacity(h: Heap, size: u64, align: u64)
    requires
        h.well_formed(),
        align > 0,
        h.allocate(size, align).1 is Some,
    ensures
        h.allocate(size, align).0.dealloc(
            h.allocate(size, align).1->Some_0,
            size,
            align,
        ).capacity(size, align) == h.capacity(size, align),
{
    let k = class_of(size, align);
    let (mid, r) = h.allocate(size, align);
    let a = r->Some_0;
    let post = mid.dealloc(a, size, align);
    let list = h.bins[k as int];
    let i = first_aligned(list, align);
    lemma_first_aligned(list, align);
    lemma_allocate_aligned(h, size, align);
    broadcast use lemma_pow2_pos;

    if i < list.len() {
        lemma_count_aligned_remove(list, align, i);
        lemma_count_aligned_push_front(list.remove(i), align, a);
    } else {
        lemma_count_aligned_push_front(list, align, a);
        lemma_align_up(h.current as int, align as int);
    }
}

/// The allocator: one free list for each size class, and the unused end of
/// the region.
pub struct Allocator {
    bins: Vec<VecDeque<u64>>,
    current: u64,
    end: u64,
    live: Ghost<Map<u64, nat>>,
}

impl View for Allocator {
    type V = Heap;

    closed spec fn view(&self) -> Heap {
        Heap {
            bins: Seq::new(self.bins@.len(), |k: int| self.bins@[k]@),
            current: self.current,
            end: self.end,
            live: self.live@,
        }
    }
}

impl Allocator {
    /// Creates an allocator that hands out memory from the region that
    /// starts at address `start` and ends before address `end`.
    pub fn new(start: u64, end: u64) -> (a: Allocator)
        ensures
            a@ == Heap::empty(start, end),
            a@.inv(),
    {
        let mut bins: Vec<VecDeque<u64>> = Vec::new();
        let mut k: usize = 0;
        while k < MAX_BINS
            invariant
                k <= MAX_BINS,
                bins@.len() == k,
                forall|j: int| 0 <= j < k ==> (#[trigger] bins@[j])@ =~= Seq::<u64>::empty(),
            decreases MAX_BINS - k,
        {
            bins.push(VecDeque::new());
            k = k + 1;
        }
        let a = Allocator { bins, current: start, end, live: Ghost(Map::empty()) };
        assert(a@.bins =~= Heap::empty(start, end).bins);
        a
    }

    /// The high-water mark: the lowest address that was never handed out.
    pub fn current(&self) -> (r: u64)
        ensures
            r == self@.current,
    {
        self.current
    }

    /// The end of the region.
    pub fn end(&self) -> (r: u64)
        ensures
            r == self@.end,
    {
        self.end
    }

    /// The free list of class `bin`, the block freed last in front.
    pub fn free_list(&self, bin: usize) -> (r: Vec<u64>)
        requires
            self@.well_formed(),
            bin < MAX_BINS,
        ensures
            r@ == self@.bins[bin as int],
    {
        let mut out: Vec<u64> = Vec::new();
        let n = self.bins[bin].len();
        let mut i: usize = 0;
        while i < n
            invariant
                bin < self.bins@.len(),
                n == self.bins@[bin as int]@.len(),
                i <= n,
                out@ == self.bins@[bin as int]@.subrange(0, i as int),
            decreases n - i,
        {
            out.push(self.bins[bin][i]);
            i = i + 1;
            assert(out@ =~= self.bins@[bin as int]@.subrange(0, i as int));
        }
        assert(out@ =~= self.bins@[bin as int]@);
        out
    }

    /// Serves a request for `size` bytes at a multiple of `align`.
    ///
    /// The request is refused with `None` if its class is not below
    /// `MAX_BINS`, or if its free list holds no aligned block and the unused
    /// end of the region is too short for a new one. Otherwise the result is
    /// the aligned block nearest to the front of the free list of the class,
    /// or, if there is none, a new block at the first aligned address at or
    /// above the high-water mark.
    #[verifier::loop_isolation(false)]
    pub fn allocate(&mut self, size: u64, align: u64) -> (r: Option<u64>)
        requires
            old(self)@.well_formed(),
            size > 0,
            is_pow2(align as int),
        ensures
            final(self)@ == old(self)@.allocate(size, align).0,
            r == old(self)@.allocate(size, align).1,
            final(self)@.well_formed(),
            final(self)@.current >= old(self)@.current,
            r matches Some(a) ==> a % align == 0,
            old(self)@.inv() ==> final(self)@.inv(),
            old(self)@.inv() ==> final(self)@.keeps_live(old(self)@),
            old(self)@.inv() ==> (r matches Some(a) ==> {
                &&& !old(self)@.live.contains_key(a)
                &&& final(self)@.block_is_apart(a, class_of(size, align))
            }),
            final(self)@.end == old(self)@.end,
    {
        proof {
            reveal(is_pow2);
            lemma_allocate_aligned(self@, size, align);
            if self@.inv() {
                lemma_allocate_keeps_inv(self@, size, align);
                lemma_allocate_keeps_live(self@, size, align);
            }
            lemma_align_up(self.current as int, align as int);
            broadcast use lemma_pow2_pos;

        }
        let bin = map_to_bin(if size >= align {
            size
        } else {
            align
        });
        if bin >= MAX_BINS {
            return None;
        }
        let ghost list = self.bins@[bin as int]@;
        let n = self.bins[bin].len();
        let mut i: usize = 0;
        while i < n
            invariant
                *self == *old(self),
                bin < self.bins@.len(),
                list == self.bins@[bin as int]@,
                n == list.len(),
                i <= n,
                align > 0,
                forall|j: int| 0 <= j < i ==> list[j] % align != 0,
            decreases n - i,
        {
            let node = self.bins[bin][i];
            if node % align == 0 {
                proof {
                    lemma_first_aligned_unique(list, align, i as int);
                }
                let _ = self.bins[bin].remove(i);
                proof {
                    self.live@ = self.live@.insert(node, bin as nat);
                }
                assert(self@.bins =~= old(self)@.allocate(size, align).0.bins);
                return Some(node);
            }
            i = i + 1;
        }
        proof {
            lemma_first_aligned_unique(list, align, n as int);
        }
        let rem = self.current % align;
        let start = if rem == 0 {
            self.current
        } else {
            let pad = align - rem;
            if self.current > u64::MAX - pad {
                return None;
            }
            self.current + pad
        };
        let alloc_size = size_for_bin(bin);
        if alloc_size > self.end || start > self.end - alloc_size {
            return None;
        }
        self.current = start + alloc_size;
        proof {
            self.live@ = self.live@.insert(start, bin as nat);
        }
        assert(self@.bins =~= old(self)@.bins);
        Some(start)
    }

    /// Takes back the block at `ptr` that was requested with `size` and
    /// `align`: it becomes the front of the free list of its class.
    pub fn dealloc(&mut self, ptr: u64, size: u64, align: u64)
        requires
            old(self)@.well_formed(),
            size > 0,
            is_pow2(align as int),
            class_of(size, align) < MAX_BINS,
        ensures
            final(self)@ == old(self)@.dealloc(ptr, size, align),
            final(self)@.well_formed(),
            old(self)@.inv() && old(self)@.live.contains_pair(ptr, class_of(size, align))
                ==> final(self)@.inv(),
    {
        proof {
            if self@.inv() && self@.live.contains_pair(ptr, class_of(size, align)) {
                lemma_dealloc_keeps_inv(self@, ptr, size, align);
            }
        }
        let bin = map_to_bin(if size >= align {
            size
        } else {
            align
        });
        self.bins[bin].push_front(ptr);
        proof {
            self.live@ = self.live@.remove(ptr);
        }
        assert(self@.bins =~= old(self)@.dealloc(ptr, size, align).bins);
    }
}

} // verus!
