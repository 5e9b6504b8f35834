//! Mathematical model of a bump arena: a fixed byte range and a cursor that
//! marks the next free byte.

use crate::align::{
    align_up,
    is_aligned,
    lemma_align_up_is_aligned,
    lemma_padding_bounds,
    padding,
};
use vstd::prelude::*;

verus! {

/// A run of `size` bytes that begins at `addr`.
pub struct Block {
    pub addr: int,
    pub size: int,
}

impl Block {
    /// First address past the block.
    pub open spec fn end(self) -> int {
        self.addr + self.size
    }

    /// Whether `byte` is one of the block's addresses.
    pub open spec fn contains(self, byte: int) -> bool {
        self.addr <= byte < self.end()
    }

    /// Whether the two blocks have no address in common.
    pub open spec fn disjoint(self, other: Block) -> bool {
        forall|byte: int| !(#[trigger] self.contains(byte) && other.contains(byte))
    }
}

/// The arena `[start, end)` with its cursor.
pub struct ArenaState {
    pub start: int,
    pub end: int,
    pub cursor: int,
}

impl ArenaState {
    /// The cursor lies within `[start, end]`.
    pub open spec fn wf(self) -> bool {
        0 <= self.start <= self.cursor <= self.end
    }

    /// Size of the whole arena in bytes.
    pub open spec fn capacity(self) -> int {
        self.end - self.start
    }

    /// Bytes below the cursor: handed out, or skipped to align a block.
    pub open spec fn used(self) -> int {
        self.cursor - self.start
    }

    /// Bytes from the cursor to the end of the arena.
    pub open spec fn remaining(self) -> int {
        self.end - self.cursor
    }

    /// Whether `block` lies inside the arena.
    pub open spec fn holds(self, block: Block) -> bool {
        self.start <= block.addr && block.end() <= self.end
    }

    /// Address that the next block of the given alignment would get.
    pub open spec fn next_addr(self, align: int) -> int {
        align_up(self.cursor, align)
    }

    /// Whether a block of `size` bytes fits after aligning the cursor.
    pub open spec fn fits(self, size: int, align: int) -> bool {
        self.next_addr(align) + size <= self.end
    }

    /// The arena after a request for `size` bytes aligned to `align`: the
    /// cursor moves past the new block if it fits and stays put otherwise.
    pub open spec fn after_allocate(self, size: int, align: int) -> ArenaState {
        if self.fits(size, align) {
            ArenaState { cursor: self.next_addr(align) + size, ..self }
        } else {
            self
        }
    }

    /// The arena after giving back a block: nothing is reclaimed.
    pub open spec fn after_deallocate(self, ptr: int, size: int) -> ArenaState {
        self
    }
}

/// A request fits exactly when the padding in front of the block and the
/// block itself take no more than the bytes that remain.
pub proof fn lemma_fits_iff_room(s: ArenaState, size: int, align: int)
    ensures
        s.fits(size, align) <==> padding(s.cursor, align) + size <= s.remaining(),
{
}

/// A request leaves the bounds alone, never moves the cursor backwards and
/// keeps it inside the arena.
pub proof fn lemma_allocate_preserves_wf(s: ArenaState, size: int, align: int)
    requires
        s.wf(),
        size >= 0,
        align > 0,
    ensures
        s.after_allocate(size, align).wf(),
        s.after_allocate(size, align).start == s.start,
        s.after_allocate(size, align).end == s.end,
        s.after_allocate(size, align).cursor >= s.cursor,
{
    lemma_padding_bounds(s.cursor, align);
}

/// A block that fits is aligned, lies inside the arena, begins at or after
/// the old cursor and ends at the new one.
pub proof fn lemma_granted_block(s: ArenaState, size: int, align: int)
    requires
        s.wf(),
        size >= 0,
        align > 0,
        s.fits(size, align),
    ensures
        is_aligned(s.next_addr(align), align),
        s.holds(Block { addr: s.next_addr(align), size }),
        s.cursor <= s.next_addr(align),
        s.after_allocate(size, align).cursor == s.next_addr(align) + size,
{
    lemma_padding_bounds(s.cursor, align);
    lemma_align_up_is_aligned(s.cursor, align);
}

} // verus!
