//! The kernel's bump (linear) allocator: carves allocations from one heap
//! range, never reuses freed memory (deallocation is accepted but a
//! no-op), and signals exhaustion by returning nothing.  Total allocation
//! volume over the system's lifetime is therefore bounded by the heap.

use crate::memlayout::{lemma_round_up, round_up};
use vstd::prelude::*;

verus! {

/// Bump allocator over the byte range `start..end`; `next` is the first
/// address not yet handed out.
#[derive(Debug)]
pub struct LinerAllocator {
    start: u64,
    end: u64,
    next: u64,
}

impl LinerAllocator {
    pub closed spec fn spec_start(&self) -> u64 {
        self.start
    }

    pub closed spec fn spec_end(&self) -> u64 {
        self.end
    }

    pub closed spec fn spec_next(&self) -> u64 {
        self.next
    }

    pub open spec fn wf(&self) -> bool {
        self.spec_start() <= self.spec_next() <= self.spec_end()
    }

    /// An allocator over the empty range, before initialization.
    pub fn new() -> (r: Self)
        ensures
            r.wf(),
            r.spec_start() == 0,
            r.spec_end() == 0,
            r.spec_next() == 0,
    {
        LinerAllocator { start: 0, end: 0, next: 0 }
    }

    /// Hand the allocator its heap range.  Called once at boot.
    pub fn init(&mut self, start: u64, size: u64)
        requires
            start + size <= u64::MAX,
        ensures
            final(self).wf(),
            final(self).spec_start() == start,
            final(self).spec_end() == start + size,
            final(self).spec_next() == start,
    {
        self.start = start;
        self.end = start + size;
        self.next = start;
    }

    /// Allocate `size` bytes at `align` alignment: the next free address
    /// rounded up, if the rounded block still fits the heap.  Returns the
    /// allocated address, or nothing when the heap is exhausted.
    pub fn allocate(&mut self, size: u64, align: u64) -> (r: Option<u64>)
        requires
            old(self).wf(),
            align > 0,
        ensures
            final(self).wf(),
            final(self).spec_start() == old(self).spec_start(),
            final(self).spec_end() == old(self).spec_end(),
            (r is Some) <==> (round_up(old(self).spec_next() as int, align as int) + size
                <= old(self).spec_end()),
            r is Some ==> r->Some_0 as int == round_up(
                old(self).spec_next() as int,
                align as int,
            ) && r->Some_0 as int % align as int == 0 && final(self).spec_next() == r->Some_0
                + size,
            r is None ==> final(self).spec_next() == old(self).spec_next(),
    {
        proof {
            lemma_round_up(self.next as int, align as int);
        }
        let rem = self.next % align;
        let pad = if rem == 0 {
            0
        } else {
            align - rem
        };
        if pad > u64::MAX - self.next {
            return None;
        }
        let alloc_start = self.next + pad;
        if size > u64::MAX - alloc_start {
            return None;
        }
        let alloc_end = alloc_start + size;
        if alloc_end > self.end {
            None
        } else {
            self.next = alloc_end;
            Some(alloc_start)
        }
    }

    /// Deallocation is not supported: freed memory is never reused.
    pub fn dealloc(&mut self, ptr: u64)
        ensures
            *final(self) == *old(self),
    {
        let _ = ptr;
    }
}

/// Set up a fresh allocator over the kernel heap.
pub fn init_allocator(start: u64, size: u64) -> (r: LinerAllocator)
    requires
        start + size <= u64::MAX,
    ensures
        r.wf(),
        r.spec_start() == start,
        r.spec_end() == start + size,
        r.spec_next() == start,
{
    let mut a = LinerAllocator::new();
    a.init(start, size);
    a
}

} // verus!
