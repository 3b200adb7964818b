//! Fibonacci computations used by the demo request handler: the sequence
//! here starts `1, 1, 2, 3, ...`, so `fib(0) == fib(1) == 1`.

use vstd::prelude::*;

verus! {

/// The Fibonacci sequence with both seeds equal to one.
pub open spec fn fib_spec(n: nat) -> nat
    decreases n,
{
    if n < 2 {
        1
    } else {
        fib_spec((n - 1) as nat) + fib_spec((n - 2) as nat)
    }
}

/// The sequence never decreases, so every intermediate value of a
/// computation of `fib_spec(n)` is bounded by the final one.
pub proof fn lemma_fib_monotonic(i: nat, j: nat)
    requires
        i <= j,
    ensures
        fib_spec(i) <= fib_spec(j),
    decreases j,
{
    if i < j && 2 <= j {
        lemma_fib_monotonic(i, (j - 1) as nat);
    }
}

/// An iterative implementation of fib()
pub fn fib_iterative(n: u64) -> (r: u64)
    requires
        fib_spec(n as nat) <= u64::MAX,
    ensures
        r == fib_spec(n as nat),
{
    if n < 2 {
        return 1;
    }
    let mut current: u64 = 1;
    let mut prev: u64 = 1;
    let mut i: u64 = 1;
    while i < n
        invariant
            1 <= i <= n,
            current == fib_spec(i as nat),
            prev == fib_spec((i - 1) as nat),
            fib_spec(n as nat) <= u64::MAX,
        decreases n - i,
    {
        proof {
            lemma_fib_monotonic((i + 1) as nat, n as nat);
        }
        let next = current + prev;
        prev = current;
        current = next;
        i = i + 1;
    }
    current
}

/// A recursive implementation of fib()
pub fn fib_recursive(n: u64) -> (r: u64)
    requires
        fib_spec(n as nat) <= u64::MAX,
    ensures
        r == fib_spec(n as nat),
    decreases n,
{
    match n {
        0 => 1,
        1 => 1,
        _ => {
            proof {
                lemma_fib_monotonic((n - 1) as nat, n as nat);
                lemma_fib_monotonic((n - 2) as nat, n as nat);
            }
            fib_recursive(n - 1) + fib_recursive(n - 2)
        },
    }
}

/// The deliberately slow doubly-recursive variant kept by the demo server.
pub fn bad_fib(n: u32) -> (r: u64)
    requires
        fib_spec(n as nat) <= u64::MAX,
    ensures
        r == fib_spec(n as nat),
    decreases n,
{
    match n {
        0 => 1,
        1 => 1,
        _ => {
            proof {
                lemma_fib_monotonic((n - 1) as nat, n as nat);
                lemma_fib_monotonic((n - 2) as nat, n as nat);
            }
            bad_fib(n - 1) + bad_fib(n - 2)
        },
    }
}

} // verus!
