//! The executable bump allocator.

use crate::align::{checked_align_up, lemma_align_up_is_aligned, lemma_padding_bounds};
use crate::arena::ArenaState;
use vstd::prelude::*;

verus! {

/// Why a request was turned down.
#[derive(Debug, Clone, Copy, PartialEq, Eq)]
pub enum AllocError {
    /// The aligned block would reach past the end of the arena.
    OutOfMemory,
}

/// A bump-pointer allocator over the address range `[start, end)`.
///
/// Blocks are handed out in increasing address order and never reclaimed.
/// Every operation that moves the cursor takes the allocator by exclusive
/// reference; a program that reaches it from interrupt handlers as well
/// keeps it behind a critical section.
#[derive(Debug)]
pub struct BumpAllocator {
    start: usize,
    end: usize,
    cursor: usize,
}

impl View for BumpAllocator {
    type V = ArenaState;

    closed spec fn view(&self) -> ArenaState {
        ArenaState { start: self.start as int, end: self.end as int, cursor: self.cursor as int }
    }
}

impl BumpAllocator {
    #[verifier::type_invariant]
    spec fn inv(self) -> bool {
        self.start <= self.cursor <= self.end
    }

    /// Creates an allocator for the `size` bytes that begin at `start`, with
    /// nothing handed out yet.
    pub fn new(start: usize, size: usize) -> (r: Self)
        requires
            start + size <= usize::MAX,
        ensures
            r@ == (ArenaState { start: start as int, end: start + size, cursor: start as int }),
    {
        BumpAllocator { start, end: start + size, cursor: start }
    }

    /// Hands out `size` bytes at the first multiple of `align` at or after
    /// the cursor and moves the cursor past them. Fails with `OutOfMemory`,
    /// leaving the allocator as it was, if the block would end beyond the
    /// arena.
    pub fn allocate(&mut self, size: usize, align: usize) -> (r: Result<usize, AllocError>)
        requires
            align > 0,
        ensures
            match r {
                Ok(addr) => {
                    &&& old(self)@.fits(size as int, align as int)
                    &&& addr == old(self)@.next_addr(align as int)
                    &&& addr % align == 0
                    &&& old(self)@.start <= addr
                    &&& addr + size <= old(self)@.end
                },
                Err(e) => {
                    &&& !old(self)@.fits(size as int, align as int)
                    &&& e == AllocError::OutOfMemory
                    &&& final(self)@ == old(self)@
                },
            },
            final(self)@ == old(self)@.after_allocate(size as int, align as int),
            old(self)@.cursor <= final(self)@.cursor,
            final(self)@.wf(),
    {
        proof {
            use_type_invariant(&*self);
            lemma_padding_bounds(self.cursor as int, align as int);
            lemma_align_up_is_aligned(self.cursor as int, align as int);
        }
        let addr: usize = match checked_align_up(self.cursor, align) {
            Some(a) => a,
            None => {
                return Err(AllocError::OutOfMemory);
            },
        };
        if addr > self.end || size > self.end - addr {
            return Err(AllocError::OutOfMemory);
        }
        self.cursor = addr + size;
        Ok(addr)
    }

    /// Takes back a block. Memory is never reclaimed, so the allocator is
    /// left exactly as it was.
    pub fn deallocate(&mut self, ptr: usize, size: usize)
        ensures
            final(self)@ == old(self)@.after_deallocate(ptr as int, size as int),
            final(self)@ == old(self)@,
            final(self)@.wf(),
    {
        proof {
            use_type_invariant(&*self);
        }
    }

    /// First address of the arena.
    pub fn start(&self) -> (r: usize)
        ensures
            r == self@.start,
            self@.wf(),
    {
        proof {
            use_type_invariant(self);
        }
        self.start
    }

    /// First address past the arena.
    pub fn end(&self) -> (r: usize)
        ensures
            r == self@.end,
            self@.wf(),
    {
        proof {
            use_type_invariant(self);
        }
        self.end
    }

    /// Address of the next free byte.
    pub fn cursor(&self) -> (r: usize)
        ensures
            r == self@.cursor,
            self@.wf(),
    {
        proof {
            use_type_invariant(self);
        }
        self.cursor
    }

    /// Size of the arena in bytes.
    pub fn capacity(&self) -> (r: usize)
        ensures
            r == self@.capacity(),
            self@.wf(),
    {
        proof {
            use_type_invariant(self);
        }
        self.end - self.start
    }

    /// Bytes below the cursor.
    pub fn used(&self) -> (r: usize)
        ensures
            r == self@.used(),
            self@.wf(),
    {
        proof {
            use_type_invariant(self);
        }
        self.cursor - self.start
    }

    /// Bytes left between the cursor and the end of the arena.
    pub fn remaining(&self) -> (r: usize)
        ensures
            r == self@.remaining(),
            self@.wf(),
    {
        proof {
            use_type_invariant(self);
        }
        self.end - self.cursor
    }
}

} // verus!
