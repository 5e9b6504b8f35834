//! Laws about whole sequences of operations on an arena.

use crate::align::{is_aligned, lemma_padding_bounds, padding};
use crate::arena::{lemma_allocate_preserves_wf, lemma_granted_block, ArenaState, Block};
use vstd::prelude::*;

verus! {

/// One call on the allocator.
pub enum Op {
    Allocate { size: int, align: int },
    Deallocate { ptr: int, size: int },
}

impl Op {
    /// Sizes are not negative and alignments are positive.
    pub open spec fn valid(self) -> bool {
        match self {
            Op::Allocate { size, align } => size >= 0 && align > 0,
            Op::Deallocate { ptr, size } => true,
        }
    }
}

/// Whether every operation of `ops` is valid.
pub open spec fn all_valid(ops: Seq<Op>) -> bool {
    forall|i: int| 0 <= i < ops.len() ==> (#[trigger] ops[i]).valid()
}

/// The arena after one operation.
pub open spec fn step(s: ArenaState, op: Op) -> ArenaState {
    match op {
        Op::Allocate { size, align } => s.after_allocate(size, align),
        Op::Deallocate { ptr, size } => s.after_deallocate(ptr, size),
    }
}

/// The block that the operation hands out, if it hands out any.
pub open spec fn granted(s: ArenaState, op: Op) -> Option<Block> {
    match op {
        Op::Allocate { size, align } => if s.fits(size, align) {
            Some(Block { addr: s.next_addr(align), size })
        } else {
            None
        },
        Op::Deallocate { ptr, size } => None,
    }
}

/// The arena after performing `ops` in order.
pub open spec fn run(s: ArenaState, ops: Seq<Op>) -> ArenaState
    decreases ops.len(),
{
    if ops.len() == 0 {
        s
    } else {
        step(run(s, ops.drop_last()), ops.last())
    }
}

/// The block handed out by the `i`-th operation of `ops`, if any.
pub open spec fn granted_at(s: ArenaState, ops: Seq<Op>, i: int) -> Option<Block> {
    granted(run(s, ops.take(i)), ops[i])
}

/// Whether every allocation of `ops` succeeds.
pub open spec fn all_granted(s: ArenaState, ops: Seq<Op>) -> bool {
    forall|i: int|
        0 <= i < ops.len() && ops[i] is Allocate ==> (#[trigger] granted_at(s, ops, i)) is Some
}

/// Bytes that the allocations of `ops` take from `cursor` onwards when
/// nothing stops them: every size, plus the padding in front of each block.
pub open spec fn demand(cursor: int, ops: Seq<Op>) -> int
    decreases ops.len(),
{
    if ops.len() == 0 {
        0
    } else {
        let before = demand(cursor, ops.drop_last());
        match ops.last() {
            Op::Allocate { size, align } => before + padding(cursor + before, align) + size,
            Op::Deallocate { ptr, size } => before,
        }
    }
}

/// In every reachable state the cursor lies inside the arena, the bounds
/// are those of the initial state, and the cursor has not moved backwards.
pub proof fn lemma_run_invariant(s: ArenaState, ops: Seq<Op>)
    requires
        s.wf(),
        all_valid(ops),
    ensures
        run(s, ops).wf(),
        run(s, ops).start == s.start,
        run(s, ops).end == s.end,
        run(s, ops).cursor >= s.cursor,
    decreases ops.len(),
{
    if ops.len() > 0 {
        lemma_run_invariant(s, ops.drop_last());
        let before = run(s, ops.drop_last());
        match ops.last() {
            Op::Allocate { size, align } => {
                lemma_allocate_preserves_wf(before, size, align);
            },
            Op::Deallocate { ptr, size } => {},
        }
    }
}

/// The cursor after a longer prefix of `ops` is not below the cursor after
/// a shorter one.
pub proof fn lemma_cursor_monotonic(s: ArenaState, ops: Seq<Op>, i: int, j: int)
    requires
        s.wf(),
        all_valid(ops),
        0 <= i <= j <= ops.len(),
    ensures
        run(s, ops.take(i)).cursor <= run(s, ops.take(j)).cursor,
    decreases j - i,
{
    if i < j {
        lemma_cursor_monotonic(s, ops, i, j - 1);
        assert(ops.take(j).drop_last() =~= ops.take(j - 1));
        lemma_run_invariant(s, ops.take(j - 1));
        let before = run(s, ops.take(j - 1));
        assert(ops.take(j).last() == ops[j - 1]);
        match ops[j - 1] {
            Op::Allocate { size, align } => {
                lemma_allocate_preserves_wf(before, size, align);
            },
            Op::Deallocate { ptr, size } => {},
        }
    }
}

/// Every block handed out has the size and alignment that were asked for
/// and lies inside the arena, at or after the initial cursor.
pub proof fn lemma_grant_inside_arena(s: ArenaState, ops: Seq<Op>, i: int)
    requires
        s.wf(),
        all_valid(ops),
        0 <= i < ops.len(),
        granted_at(s, ops, i) is Some,
    ensures
        granted_at(s, ops, i) matches Some(block) && ops[i] matches Op::Allocate { size, align }
            && {
            &&& block.size == size
            &&& is_aligned(block.addr, align)
            &&& s.holds(block)
            &&& s.cursor <= block.addr
        },
{
    lemma_run_invariant(s, ops.take(i));
    let before = run(s, ops.take(i));
    match ops[i] {
        Op::Allocate { size, align } => {
            lemma_granted_block(before, size, align);
        },
        Op::Deallocate { ptr, size } => {},
    }
}

/// Two blocks handed out by different operations do not overlap: the
/// earlier one ends at or before the address where the later one begins.
pub proof fn lemma_grants_do_not_overlap(s: ArenaState, ops: Seq<Op>, i: int, j: int)
    requires
        s.wf(),
        all_valid(ops),
        0 <= i < j < ops.len(),
        granted_at(s, ops, i) is Some,
        granted_at(s, ops, j) is Some,
    ensures
        granted_at(s, ops, i) matches Some(first) && granted_at(s, ops, j) matches Some(second)
            && {
            &&& first.end() <= second.addr
            &&& first.disjoint(second)
        },
{
    let first = granted_at(s, ops, i)->Some_0;
    let second = granted_at(s, ops, j)->Some_0;
    lemma_run_invariant(s, ops.take(i));
    lemma_run_invariant(s, ops.take(j));
    assert(first.end() == run(s, ops.take(i + 1)).cursor) by {
        assert(ops.take(i + 1).drop_last() =~= ops.take(i));
        assert(ops.take(i + 1).last() == ops[i]);
        match ops[i] {
            Op::Allocate { size, align } => {
                lemma_granted_block(run(s, ops.take(i)), size, align);
            },
            Op::Deallocate { ptr, size } => {},
        }
    }
    lemma_cursor_monotonic(s, ops, i + 1, j);
    assert(run(s, ops.take(j)).cursor <= second.addr) by {
        match ops[j] {
            Op::Allocate { size, align } => {
                lemma_granted_block(run(s, ops.take(j)), size, align);
            },
            Op::Deallocate { ptr, size } => {},
        }
    }
}

/// The demand is never negative and only grows as operations are added.
pub proof fn lemma_demand_grows(cursor: int, ops: Seq<Op>)
    requires
        all_valid(ops),
    ensures
        0 <= demand(cursor, ops),
        ops.len() > 0 ==> demand(cursor, ops.drop_last()) <= demand(cursor, ops),
    decreases ops.len(),
{
    if ops.len() > 0 {
        lemma_demand_grows(cursor, ops.drop_last());
        match ops.last() {
            Op::Allocate { size, align } => {
                lemma_padding_bounds(cursor + demand(cursor, ops.drop_last()), align);
            },
            Op::Deallocate { ptr, size } => {},
        }
    }
}

/// Dropping the last operation keeps every earlier outcome.
proof fn lemma_granted_at_prefix(s: ArenaState, ops: Seq<Op>, i: int)
    requires
        0 <= i < ops.len() - 1,
    ensures
        granted_at(s, ops.drop_last(), i) == granted_at(s, ops, i),
{
    assert(ops.drop_last().take(i) =~= ops.take(i));
}

/// The last outcome is decided in the state reached by all the others.
proof fn lemma_granted_at_last(s: ArenaState, ops: Seq<Op>)
    requires
        ops.len() > 0,
    ensures
        granted_at(s, ops, ops.len() - 1) == granted(run(s, ops.drop_last()), ops.last()),
{
    assert(ops.take(ops.len() - 1) =~= ops.drop_last());
}

/// As long as every allocation succeeds, the cursor advances by exactly the
/// demand.
pub proof fn lemma_cursor_tracks_demand(s: ArenaState, ops: Seq<Op>)
    requires
        s.wf(),
        all_valid(ops),
        all_granted(s, ops),
    ensures
        run(s, ops).cursor == s.cursor + demand(s.cursor, ops),
    decreases ops.len(),
{
    if ops.len() > 0 {
        let init = ops.drop_last();
        assert forall|i: int| 0 <= i < init.len() && init[i] is Allocate implies granted_at(
            s,
            init,
            i,
        ) is Some by {
            lemma_granted_at_prefix(s, ops, i);
            assert(granted_at(s, ops, i) is Some);
        }
        lemma_cursor_tracks_demand(s, init);
        lemma_granted_at_last(s, ops);
        if ops.last() is Allocate {
            assert(granted_at(s, ops, ops.len() - 1) is Some);
        }
    }
}

/// Every allocation of `ops` succeeds exactly when the demand of `ops` is
/// no more than what remains of the arena.
pub proof fn lemma_all_granted_iff_demand_fits(s: ArenaState, ops: Seq<Op>)
    requires
        s.wf(),
        all_valid(ops),
    ensures
        all_granted(s, ops) <==> demand(s.cursor, ops) <= s.remaining(),
    decreases ops.len(),
{
    if all_granted(s, ops) {
        lemma_cursor_tracks_demand(s, ops);
        lemma_run_invariant(s, ops);
    }
    if demand(s.cursor, ops) <= s.remaining() && ops.len() > 0 {
        let init = ops.drop_last();
        lemma_demand_grows(s.cursor, ops);
        lemma_all_granted_iff_demand_fits(s, init);
        lemma_cursor_tracks_demand(s, init);
        lemma_run_invariant(s, init);
        lemma_granted_at_last(s, ops);
        assert forall|i: int| 0 <= i < ops.len() && ops[i] is Allocate implies granted_at(
            s,
            ops,
            i,
        ) is Some by {
            if i < ops.len() - 1 {
                lemma_granted_at_prefix(s, ops, i);
                assert(granted_at(s, init, i) is Some);
            }
        }
    }
}

/// What the allocations of `ops` can take at most, wherever the cursor
/// stands: each size plus the longest padding its alignment may call for.
pub open spec fn worst_case_demand(ops: Seq<Op>) -> int
    decreases ops.len(),
{
    if ops.len() == 0 {
        0
    } else {
        match ops.last() {
            Op::Allocate { size, align } => worst_case_demand(ops.drop_last()) + size + align - 1,
            Op::Deallocate { ptr, size } => worst_case_demand(ops.drop_last()),
        }
    }
}

/// The demand from any cursor stays within the worst case.
pub proof fn lemma_demand_within_worst_case(cursor: int, ops: Seq<Op>)
    requires
        all_valid(ops),
    ensures
        demand(cursor, ops) <= worst_case_demand(ops),
    decreases ops.len(),
{
    if ops.len() > 0 {
        lemma_demand_within_worst_case(cursor, ops.drop_last());
        match ops.last() {
            Op::Allocate { size, align } => {
                lemma_padding_bounds(cursor + demand(cursor, ops.drop_last()), align);
            },
            Op::Deallocate { ptr, size } => {},
        }
    }
}

/// When the demand of `ops` fits in what remains of the arena, every
/// allocation succeeds, every block lies inside the arena at an address of
/// the requested alignment, and no two blocks overlap.
pub proof fn lemma_blocks_inside_and_disjoint(s: ArenaState, ops: Seq<Op>)
    requires
        s.wf(),
        all_valid(ops),
        demand(s.cursor, ops) <= s.remaining(),
    ensures
        all_granted(s, ops),
        forall|i: int|
            0 <= i < ops.len() && ops[i] is Allocate ==> {
                &&& #[trigger] granted_at(s, ops, i) matches Some(block)
                &&& s.holds(block)
                &&& is_aligned(block.addr, ops[i]->align)
            },
        forall|i: int, j: int|
            0 <= i < j < ops.len() && ops[i] is Allocate && ops[j] is Allocate ==> {
                &&& #[trigger] granted_at(s, ops, i) matches Some(first)
                &&& #[trigger] granted_at(s, ops, j) matches Some(second)
                &&& first.disjoint(second)
            },
{
    lemma_all_granted_iff_demand_fits(s, ops);
    assert forall|i: int| 0 <= i < ops.len() && ops[i] is Allocate implies {
        &&& #[trigger] granted_at(s, ops, i) matches Some(block)
        &&& s.holds(block)
        &&& is_aligned(block.addr, ops[i]->align)
    } by {
        assert(granted_at(s, ops, i) is Some);
        lemma_grant_inside_arena(s, ops, i);
    }
    assert forall|i: int, j: int|
        0 <= i < j < ops.len() && ops[i] is Allocate && ops[j] is Allocate implies {
        &&& #[trigger] granted_at(s, ops, i) matches Some(first)
        &&& #[trigger] granted_at(s, ops, j) matches Some(second)
        &&& first.disjoint(second)
    } by {
        assert(granted_at(s, ops, i) is Some);
        assert(granted_at(s, ops, j) is Some);
        lemma_grants_do_not_overlap(s, ops, i, j);
    }
}

/// Giving a block back changes nothing: the arena stays in the state it was
/// in, so whatever operations follow pass through the same states and hand
/// out the same blocks as if the deallocation had not happened.
pub proof fn lemma_deallocate_changes_nothing(s: ArenaState, ptr: int, size: int, ops: Seq<Op>)
    ensures
        step(s, Op::Deallocate { ptr, size }) == s,
        run(step(s, Op::Deallocate { ptr, size }), ops) == run(s, ops),
        forall|i: int|
            0 <= i < ops.len() ==> #[trigger] granted_at(
                step(s, Op::Deallocate { ptr, size }),
                ops,
                i,
            ) == granted_at(s, ops, i),
{
}

/// The blocks handed out by `ops`, in the order of the calls.
pub open spec fn blocks(s: ArenaState, ops: Seq<Op>) -> Seq<Block>
    decreases ops.len(),
{
    if ops.len() == 0 {
        Seq::empty()
    } else {
        let earlier = blocks(s, ops.drop_last());
        match granted(run(s, ops.drop_last()), ops.last()) {
            Some(block) => earlier.push(block),
            None => earlier,
        }
    }
}

/// `ops` without its deallocations.
pub open spec fn allocations(ops: Seq<Op>) -> Seq<Op> {
    ops.filter(|op: Op| op is Allocate)
}

/// Deallocations can be struck from a sequence of operations: the final
/// state and the blocks handed out are those of the allocations alone.
pub proof fn lemma_deallocations_can_be_dropped(s: ArenaState, ops: Seq<Op>)
    ensures
        run(s, ops) == run(s, allocations(ops)),
        blocks(s, ops) == blocks(s, allocations(ops)),
    decreases ops.len(),
{
    reveal(Seq::filter);
    if ops.len() > 0 {
        lemma_deallocations_can_be_dropped(s, ops.drop_last());
        if ops.last() is Allocate {
            let kept = allocations(ops.drop_last());
            assert(allocations(ops) == kept.push(ops.last()));
            assert(allocations(ops).drop_last() =~= kept);
            assert(allocations(ops).last() == ops.last());
        }
    }
}

} // verus!
