//! The naive recursive Fibonacci function, with its overflow bound proved.

use vstd::prelude::*;

verus! {

/// Fibonacci with `fib(1) == fib(2) == 1` (and `fib(0) == 1` by the same
/// base case).
pub open spec fn fib(n: nat) -> nat
    decreases n,
{
    if n <= 2 {
        1
    } else {
        fib((n - 1) as nat) + fib((n - 2) as nat)
    }
}

/// Fibonacci numbers never decrease as the index grows.
pub proof fn lemma_fib_monotonic(i: nat, j: nat)
    requires
        i <= j,
    ensures
        fib(i) <= fib(j),
    decreases j,
{
    if 2 < j && i < j {
        lemma_fib_monotonic(i, (j - 1) as nat);
    }
}

/// Every Fibonacci number up to index 47 fits in a `u32`.
#[verifier::rlimit(100)]
pub proof fn lemma_fib_fits_u32(n: nat)
    requires
        n <= 47,
    ensures
        fib(n) <= u32::MAX,
{
    lemma_fib_monotonic(n, 47);
    assert(fib(47) == 2971215073) by {
        reveal_with_fuel(fib, 48);
    }
}

/// Naive recursive Fibonacci. Indices above 47 are refused by the caller
/// because `fib(48)` no longer fits in a `u32`.
pub fn fb(n: u32) -> (r: u32)
    requires
        n <= 47,
    ensures
        r == fib(n as nat),
    decreases n,
{
    if n <= 2 {
        1
    } else {
        proof {
            lemma_fib_fits_u32(n as nat);
        }
        fb(n - 1) + fb(n - 2)
    }
}

} // verus!
