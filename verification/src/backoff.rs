//! Retry delays: exponential growth from a base, held under a cap, plus
//! bounded jitter.

use vstd::prelude::*;

verus! {

/// Two to the power `n`.
pub open spec fn pow2(n: nat) -> nat
    decreases n,
{
    if n == 0 {
        1
    } else {
        2 * pow2((n - 1) as nat)
    }
}

/// The deterministic part of the delay that follows the `attempt`-th
/// counted attempt: the base delay doubled `attempt` times, held at `cap`.
pub open spec fn backoff_delay(base: u64, cap: u64, attempt: nat) -> int {
    if base * pow2(attempt) <= cap {
        base * pow2(attempt)
    } else {
        cap as int
    }
}

/// The jitter drawn from `seed`: a value between zero and the base delay,
/// both included. It does not depend on the attempt, so that one seed
/// shifts every wait of an email by the same amount.
pub open spec fn jitter_for(seed: u64, base: u64) -> int {
    (seed as int) % (base + 1)
}

/// The whole wait before the next attempt: capped exponential delay plus
/// jitter.
pub open spec fn retry_delay(base: u64, cap: u64, attempt: nat, seed: u64) -> int {
    backoff_delay(base, cap, attempt) + jitter_for(seed, base)
}

/// The instant of the next attempt, held at the largest representable
/// instant.
pub open spec fn next_attempt_time(now: u64, wait: int) -> u64 {
    if now + wait <= u64::MAX {
        (now + wait) as u64
    } else {
        u64::MAX
    }
}

pub proof fn lemma_pow2_positive(n: nat)
    ensures
        pow2(n) >= 1,
    decreases n,
{
    if n > 0 {
        lemma_pow2_positive((n - 1) as nat);
    }
}

pub proof fn lemma_pow2_monotonic(a: nat, b: nat)
    requires
        a <= b,
    ensures
        pow2(a) <= pow2(b),
    decreases b,
{
    if a < b {
        lemma_pow2_monotonic(a, (b - 1) as nat);
    }
}

proof fn lemma_scaled_pow2_monotonic(base: u64, a: nat, b: nat)
    requires
        a <= b,
    ensures
        base * pow2(a) <= base * pow2(b),
{
    lemma_pow2_monotonic(a, b);
    assert(base * pow2(a) <= base * pow2(b)) by (nonlinear_arith)
        requires
            pow2(a) <= pow2(b),
            base >= 0,
    ;
}

/// Monotonic backoff: a later retry never waits less than an earlier one,
/// as far as the deterministic delay goes.
pub proof fn lemma_backoff_monotonic(base: u64, cap: u64, earlier: nat, later: nat)
    requires
        earlier <= later,
    ensures
        backoff_delay(base, cap, earlier) <= backoff_delay(base, cap, later),
        backoff_delay(base, cap, later) <= cap,
{
    lemma_scaled_pow2_monotonic(base, earlier, later);
}

/// Monotonic backoff with jitter, for one seed: the whole wait of a later
/// retry is never shorter than the whole wait of an earlier one, below
/// the cap, at the step where the cap cuts the doubling, and beyond it.
/// The wait never exceeds the cap by more than the base delay.
pub proof fn lemma_retry_delay_never_shrinks(
    base: u64,
    cap: u64,
    earlier: nat,
    later: nat,
    seed: u64,
)
    requires
        earlier <= later,
    ensures
        retry_delay(base, cap, earlier, seed) <= retry_delay(base, cap, later, seed),
        retry_delay(base, cap, later, seed) <= cap + base,
{
    lemma_backoff_monotonic(base, cap, earlier, later);
}

/// Monotonic backoff with jitter, for any two seeds: while the doubled
/// delay still fits under the cap, the whole wait of one retry, whatever
/// its jitter, is at most the whole wait of the next, whatever its jitter.
pub proof fn lemma_retry_delay_monotonic(
    base: u64,
    cap: u64,
    attempt: nat,
    seed: u64,
    next_seed: u64,
)
    requires
        base * pow2(attempt + 1) <= cap,
    ensures
        retry_delay(base, cap, attempt, seed) <= retry_delay(base, cap, attempt + 1, next_seed),
{
    lemma_scaled_pow2_monotonic(base, attempt, attempt + 1);
    lemma_pow2_positive(attempt);
    let d = backoff_delay(base, cap, attempt);
    assert(d == base * pow2(attempt));
    assert(pow2(attempt + 1) == 2 * pow2(attempt));
    assert(base * pow2(attempt + 1) == 2 * (base * pow2(attempt))) by (nonlinear_arith)
        requires
            pow2(attempt + 1) == 2 * pow2(attempt),
    ;
    assert(base * pow2(attempt) >= base) by (nonlinear_arith)
        requires
            pow2(attempt) >= 1,
            base >= 0,
    ;
    assert(jitter_for(seed, base) <= base);
    assert(jitter_for(next_seed, base) >= 0);
}

/// Computes the capped exponential delay.
pub fn compute_backoff(base: u64, cap: u64, attempt: u32) -> (delay: u64)
    ensures
        delay == backoff_delay(base, cap, attempt as nat),
{
    proof {
        lemma_pow2_positive(attempt as nat);
    }
    if base == 0 {
        assert(base * pow2(attempt as nat) == 0) by (nonlinear_arith)
            requires
                base == 0,
        ;
        return 0;
    }
    if base > cap {
        assert(base * pow2(attempt as nat) >= base) by (nonlinear_arith)
            requires
                pow2(attempt as nat) >= 1,
                base >= 0,
        ;
        return cap;
    }
    let mut delay: u64 = base;
    let mut done: u32 = 0;
    assert(base * pow2(0) == base) by (nonlinear_arith)
        requires
            pow2(0) == 1,
    ;
    while done < attempt && delay < cap
        invariant
            done <= attempt,
            delay <= cap,
            base >= 1,
            delay == backoff_delay(base, cap, done as nat),
        decreases attempt - done,
    {
        let ghost before = base * pow2(done as nat);
        assert(delay == before);
        assert(pow2((done + 1) as nat) == 2 * pow2(done as nat));
        assert(base * pow2((done + 1) as nat) == 2 * before) by (nonlinear_arith)
            requires
                pow2((done + 1) as nat) == 2 * pow2(done as nat),
                before == base * pow2(done as nat),
        ;
        if delay > cap - delay {
            delay = cap;
        } else {
            delay = delay + delay;
        }
        done = done + 1;
    }
    proof {
        if done < attempt {
            lemma_scaled_pow2_monotonic(base, done as nat, attempt as nat);
        }
    }
    delay
}

/// Computes the jitter from a caller-supplied random seed: at most the
/// base delay.
pub fn compute_jitter(seed: u64, base: u64) -> (jitter: u64)
    ensures
        jitter == jitter_for(seed, base),
        jitter <= base,
{
    if base == u64::MAX {
        assert((seed as int) % ((base as int) + 1) == seed as int) by (nonlinear_arith)
            requires
                0 <= seed < base + 1,
        ;
        seed
    } else {
        seed % (base + 1)
    }
}

/// Computes the instant of the next attempt after a counted failure:
/// `now` plus the capped exponential delay plus jitter, saturating.
pub fn compute_next_attempt(now: u64, base: u64, cap: u64, attempt: u32, seed: u64) -> (at: u64)
    ensures
        at == next_attempt_time(now, retry_delay(base, cap, attempt as nat, seed)),
        at >= now,
{
    let delay = compute_backoff(base, cap, attempt);
    let jitter = compute_jitter(seed, base);
    let wait = delay.saturating_add(jitter);
    now.saturating_add(wait)
}

} // verus!
