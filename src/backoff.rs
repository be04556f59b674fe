//! The polling delay schedule: Fibonacci numbers, each capped.
use vstd::prelude::*;

verus! {

/// Longest pause between two polls, in milliseconds.
pub const MAX_DELAY_MS: u64 = 100;

/// Fibonacci numbers: `fib(0) == 0`, `fib(1) == fib(2) == 1`.
pub open spec fn fib(n: nat) -> nat
    decreases n,
{
    if n < 2 {
        n
    } else {
        fib((n - 1) as nat) + fib((n - 2) as nat)
    }
}

/// `n`, held down to the cap.
pub open spec fn capped(n: nat) -> nat {
    if n > MAX_DELAY_MS as nat {
        MAX_DELAY_MS as nat
    } else {
        n
    }
}

/// The pause before poll number `k` (counting from zero):
/// `1, 1, 2, 3, 5, 8, ...`, capped at `MAX_DELAY_MS`.
pub open spec fn delay_at(k: nat) -> nat {
    capped(fib(k + 1))
}

/// Where the schedule stands: the next pause and the one after it.
pub struct Backoff {
    current: u64,
    following: u64,
    steps: Ghost<nat>,
}

impl Backoff {
    /// How many pauses have been handed out.
    pub closed spec fn steps(&self) -> nat {
        self.steps@
    }

    pub closed spec fn wf(&self) -> bool {
        &&& self.current as nat == delay_at(self.steps@)
        &&& self.following as nat == delay_at(self.steps@ + 1)
    }

    /// A fresh schedule, at its first pause.
    pub fn new() -> (r: Backoff)
        ensures
            r.wf(),
            r.steps() == 0,
    {
        proof {
            reveal_with_fuel(fib, 3);
        }
        Backoff { current: 1, following: 1, steps: Ghost(0) }
    }

    /// Hands out the next pause, in milliseconds, and moves on.
    pub fn next_delay(&mut self) -> (d: u64)
        requires
            old(self).wf(),
        ensures
            final(self).wf(),
            d as nat == delay_at(old(self).steps()),
            final(self).steps() == old(self).steps() + 1,
    {
        let d = self.current;
        let sum = self.current + self.following;
        self.current = self.following;
        self.following = if sum > MAX_DELAY_MS {
            MAX_DELAY_MS
        } else {
            sum
        };
        proof {
            let k = self.steps@;
            assert(fib(k + 3) == fib(k + 2) + fib(k + 1));
            self.steps = Ghost(k + 1);
        }
        d
    }
}

proof fn lemma_fib_monotone(m: nat, n: nat)
    requires
        m <= n,
    ensures
        fib(m) <= fib(n),
    decreases n - m,
{
    if m < n {
        lemma_fib_monotone(m, (n - 1) as nat);
        if n >= 2 {
            assert(fib(n) == fib((n - 1) as nat) + fib((n - 2) as nat));
        }
    }
}

/// The schedule reads `1, 1, 2, 3, 5, 8, 13, 21, 34, 55, 89`, and every
/// later pause is `100`.
pub proof fn lemma_delay_schedule(k: nat)
    ensures
        k < 11 ==> delay_at(k) == seq![1nat, 1, 2, 3, 5, 8, 13, 21, 34, 55, 89][k as int],
        k >= 11 ==> delay_at(k) == 100,
{
    assert(fib(0) == 0);
    assert(fib(1) == 1);
    assert(fib(2) == 1);
    assert(fib(3) == 2);
    assert(fib(4) == 3);
    assert(fib(5) == 5);
    assert(fib(6) == 8);
    assert(fib(7) == 13);
    assert(fib(8) == 21);
    assert(fib(9) == 34);
    assert(fib(10) == 55);
    assert(fib(11) == 89);
    assert(fib(12) == 144);
    if k >= 11 {
        lemma_fib_monotone(12, k + 1);
    }
}

} // verus!
