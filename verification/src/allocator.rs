//! The bump allocator: a fixed arena of addresses served front to back.

use vstd::prelude::*;

verus! {

use vstd::arithmetic::power2::is_pow2;
use crate::align::{
    align_up,
    lemma_align_up_bounds,
    lemma_align_up_overflows,
    lemma_pow2_mask_equiv,
    spec_align_up,
};

/// Why an allocation request was refused.
#[derive(Clone, Copy, Debug, PartialEq, Eq, Structural)]
pub enum AllocError {
    /// The requested alignment is not a power of two.
    InvalidAlignment,
    /// No prefix of the remaining arena can hold the aligned request.
    AllocationExhausted,
}

/// Whether a request for `size` bytes at alignment `align` can be granted
/// from cursor `next` in an arena ending at `end`: the alignment is a power
/// of two and the aligned block still fits below `end`.
pub open spec fn request_grantable(next: int, end: int, size: int, align: int) -> bool {
    &&& is_pow2(align)
    &&& spec_align_up(next, align) + size <= end
}

/// A bump-pointer allocator over the address range
/// `[heap_start, heap_end)`. `next` is the address of the first byte not
/// yet handed out; it only ever moves forward.
pub struct BumpAllocator {
    /// Address of the first byte of the arena.
    pub heap_start: usize,
    /// Address one past the last byte of the arena.
    pub heap_end: usize,
    /// Address of the next free byte.
    pub next: usize,
}

impl BumpAllocator {
    /// The cursor always stays inside the arena.
    pub open spec fn wf(&self) -> bool {
        self.heap_start <= self.next <= self.heap_end
    }

    /// Creates an allocator over the `arena_size` bytes starting at address
    /// `arena_start`, with the cursor at the very first byte.
    pub fn new(arena_start: usize, arena_size: usize) -> (r: BumpAllocator)
        requires
            arena_start + arena_size <= usize::MAX,
        ensures
            r.wf(),
            r.heap_start == arena_start,
            r.heap_end == arena_start + arena_size,
            r.next == arena_start,
    {
        BumpAllocator {
            heap_start: arena_start,
            heap_end: arena_start + arena_size,
            next: arena_start,
        }
    }

    /// Reserves `size` bytes at a multiple of `align` and returns their
    /// starting address. The block is carved out of `[old(self).next,
    /// final(self).next)`, so distinct grants never overlap. A refused
    /// request leaves the allocator untouched: `InvalidAlignment` exactly
    /// when `align` is not a power of two, `AllocationExhausted` exactly
    /// when the aligned block would end past the arena.
    pub fn allocate(&mut self, size: usize, align: usize) -> (r: Result<usize, AllocError>)
        requires
            old(self).wf(),
        ensures
            final(self).wf(),
            final(self).heap_start == old(self).heap_start,
            final(self).heap_end == old(self).heap_end,
            match r {
                Ok(addr) => {
                    &&& request_grantable(
                        old(self).next as int,
                        old(self).heap_end as int,
                        size as int,
                        align as int,
                    )
                    &&& addr == spec_align_up(old(self).next as int, align as int)
                    &&& addr as int % align as int == 0
                    &&& old(self).next <= addr
                    &&& final(self).next == addr + size
                },
                Err(e) => {
                    &&& *final(self) == *old(self)
                    &&& (e == AllocError::InvalidAlignment <==> !is_pow2(align as int))
                    &&& (e == AllocError::AllocationExhausted <==> is_pow2(align as int)
                        && !request_grantable(
                        old(self).next as int,
                        old(self).heap_end as int,
                        size as int,
                        align as int,
                    ))
                },
            },
    {
        if align == 0 || (align & (align - 1)) != 0 {
            proof {
                lemma_pow2_mask_equiv(align);
            }
            return Err(AllocError::InvalidAlignment);
        }
        proof {
            lemma_pow2_mask_equiv(align);
        }
        let current: usize = self.next;
        let mask: usize = align - 1;
        if current > usize::MAX - mask {
            // The aligned cursor would lie past the top of the address
            // space, so it certainly lies past the arena.
            proof {
                lemma_align_up_overflows(current, align);
            }
            return Err(AllocError::AllocationExhausted);
        }
        let aligned: usize = align_up(current, align);
        proof {
            lemma_align_up_bounds(current as int, align as int);
        }
        if size > usize::MAX - aligned {
            // The block would end past the top of the address space.
            return Err(AllocError::AllocationExhausted);
        }
        let new_next: usize = aligned + size;
        if new_next > self.heap_end {
            return Err(AllocError::AllocationExhausted);
        }
        self.next = new_next;
        Ok(aligned)
    }

    /// Deallocation is a no-op by design: the arena is never reclaimed, so
    /// the allocator is left exactly as it was.
    pub fn dealloc(&mut self, _addr: usize, _size: usize, _align: usize)
        ensures
            *final(self) == *old(self),
    {
    }
}

} // verus!
