//! The computation of the user program that keeps the processor busy.

use vstd::prelude::*;

verus! {

/// The Fibonacci numbers, counted from 1, 1.
pub open spec fn fib_of(n: nat) -> nat
    decreases n,
{
    if n <= 1 {
        1
    } else {
        fib_of((n - 1) as nat) + fib_of((n - 2) as nat)
    }
}

/// Every Fibonacci number is positive.
pub proof fn lemma_fib_positive(n: nat)
    ensures
        fib_of(n) >= 1,
    decreases n,
{
    if n > 1 {
        lemma_fib_positive((n - 1) as nat);
        lemma_fib_positive((n - 2) as nat);
    }
}

/// The Fibonacci number with number `n`.
pub fn fib(n: u64) -> (r: u64)
    requires
        fib_of(n as nat) <= u64::MAX,
    ensures
        r == fib_of(n as nat),
    decreases n,
{
    if n <= 1 {
        1
    } else {
        proof {
            lemma_fib_positive((n - 1) as nat);
            lemma_fib_positive((n - 2) as nat);
        }
        fib(n - 1) + fib(n - 2)
    }
}

/// Nothing of its argument: zero.
pub fn bar(a: u64) -> (r: u64)
    ensures
        r == 0,
{
    0
}

/// The sum of ten numbers: the doubles of 0 to 8, and 2.
pub fn foo() -> (r: u64)
    ensures
        r == 74,
{
    let mut a: [u64; 10] = [2; 10];
    let mut i: usize = 0;
    while i < 9
        invariant
            i <= 9,
            forall|j: int| 0 <= j < i ==> #[trigger] a[j] == 2 * j,
            forall|j: int| i <= j < 10 ==> #[trigger] a[j] == 2,
        decreases 9 - i,
    {
        a[i] = a[i] * i as u64;
        i = i + 1;
    }
    a[0] + a[1] + a[2] + a[3] + a[4] + a[5] + a[6] + a[7] + a[8] + a[9]
}

} // verus!
