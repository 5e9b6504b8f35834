//! Naive doubly recursive Fibonacci, used to drive the call stack to a chosen
//! depth.

use vstd::prelude::*;

verus! {

/// Largest argument whose Fibonacci number still fits in a `u32`.
pub const MAX_STACK_DEPTH: u32 = 47;

/// The Fibonacci sequence: 0, 1, 1, 2, 3, 5, 8, ...
pub open spec fn fib(n: nat) -> nat
    decreases n,
{
    if n < 2 {
        n
    } else {
        fib((n - 1) as nat) + fib((n - 2) as nat)
    }
}

/// The sequence never decreases.
pub proof fn lemma_fib_monotonic(i: nat, j: nat)
    requires
        i <= j,
    ensures
        fib(i) <= fib(j),
    decreases j,
{
    if i < j {
        lemma_fib_monotonic(i, (j - 1) as nat);
        if j >= 2 {
            assert(fib(j) == fib((j - 1) as nat) + fib((j - 2) as nat));
        } else {
            assert(fib(j) == 1 && fib((j - 1) as nat) == 0);
        }
    }
}

/// Eight and nine steps ahead are fixed linear combinations of two
/// neighbouring values.
proof fn lemma_fib_leap(n: nat)
    ensures
        fib(n + 8) == 21 * fib(n + 1) + 13 * fib(n),
        fib(n + 9) == 34 * fib(n + 1) + 21 * fib(n),
{
    assert(fib(n + 2) == fib(n + 1) + fib(n));
    assert(fib(n + 3) == fib(n + 2) + fib(n + 1));
    assert(fib(n + 4) == fib(n + 3) + fib(n + 2));
    assert(fib(n + 5) == fib(n + 4) + fib(n + 3));
    assert(fib(n + 6) == fib(n + 5) + fib(n + 4));
    assert(fib(n + 7) == fib(n + 6) + fib(n + 5));
    assert(fib(n + 8) == fib(n + 7) + fib(n + 6));
    assert(fib(n + 9) == fib(n + 8) + fib(n + 7));
}

/// The values on either side of the `u32` limit.
pub proof fn lemma_fib_at_limit()
    ensures
        fib(47) == 2971215073,
        fib(48) == 4807526976,
{
    assert(fib(0) == 0 && fib(1) == 1);
    lemma_fib_leap(0);
    assert(fib(8) == 21 && fib(9) == 34);
    lemma_fib_leap(8);
    assert(fib(16) == 987 && fib(17) == 1597);
    lemma_fib_leap(16);
    assert(fib(24) == 46368 && fib(25) == 75025);
    lemma_fib_leap(24);
    assert(fib(32) == 2178309 && fib(33) == 3524578);
    lemma_fib_leap(32);
    assert(fib(40) == 102334155 && fib(41) == 165580141);
    lemma_fib_leap(39);
    assert(fib(39) == fib(41) - fib(40));
    assert(fib(47) == 2971215073 && fib(48) == 4807526976);
}

/// A Fibonacci number fits in a `u32` exactly up to `MAX_STACK_DEPTH`.
pub proof fn lemma_fib_fits_u32(n: nat)
    ensures
        n <= MAX_STACK_DEPTH <==> fib(n) <= u32::MAX,
{
    lemma_fib_at_limit();
    if n <= 47 {
        lemma_fib_monotonic(n, 47);
    } else {
        lemma_fib_monotonic(48, n);
    }
}

/// Computes the `n`-th Fibonacci number by plain double recursion, so that
/// the call depth grows with `n`.
pub fn test_stack(n: u32) -> (r: u32)
    requires
        n <= MAX_STACK_DEPTH,
    ensures
        r == fib(n as nat),
    decreases n,
{
    match n {
        0 => 0,
        1 | 2 => {
            assert(fib(1) == 1 && fib(2) == 1) by {
                reveal_with_fuel(fib, 3);
            }
            1
        },
        3 => {
            assert(fib(3) == 2) by {
                reveal_with_fuel(fib, 4);
            }
            2
        },
        _ => {
            proof {
                lemma_fib_fits_u32(n as nat);
                assert(fib(n as nat) == fib((n - 1) as nat) + fib((n - 2) as nat));
            }
            test_stack(n - 1) + test_stack(n - 2)
        },
    }
}

} // verus!
