//! The steps of a program that prints the Fibonacci numbers and starts over
//! when the next number would not fit in a `usize`.
use vstd::prelude::*;

verus! {

/// The `n`-th Fibonacci number.
pub open spec fn fib(n: nat) -> nat
    decreases n,
{
    if n == 0 {
        0
    } else if n == 1 {
        1
    } else {
        fib((n - 2) as nat) + fib((n - 1) as nat)
    }
}

/// One step of the program in state `(a, b)`.
#[derive(Clone, Copy, Debug, PartialEq, Eq, Structural)]
pub enum FibStep {
    /// Print `value`, then continue in state `(next_a, next_b)`.
    Print { value: usize, next_a: usize, next_b: usize },
    /// `a + b` overflows: start over in state `(0, 1)`, printing nothing.
    Restart,
}

/// The step the program takes in state `(a, b)`: print `a` and go on with
/// `(b, a + b)`, or start over when `a + b` does not fit.
pub fn fibonacci(a: usize, b: usize) -> (r: FibStep)
    ensures
        a + b <= usize::MAX ==> r == (FibStep::Print {
            value: a,
            next_a: b,
            next_b: (a + b) as usize,
        }),
        a + b > usize::MAX ==> r == FibStep::Restart,
{
    match a.checked_add(b) {
        None => FibStep::Restart,
        Some(b2) => FibStep::Print { value: a, next_a: b, next_b: b2 },
    }
}

/// Law: in the state `(fib(k), fib(k + 1))` the program prints `fib(k)` and
/// moves on to `(fib(k + 1), fib(k + 2))`, so that from `(0, 1)` it prints the
/// Fibonacci numbers in order until the next one would overflow.
pub proof fn law_fibonacci_prints_sequence(k: nat, a: usize, b: usize)
    requires
        a == fib(k),
        b == fib(k + 1),
        a + b <= usize::MAX,
    ensures
        a + b == fib(k + 2),
{
    assert(fib(k + 2) == fib(k) + fib(k + 1));
}

} // verus!
