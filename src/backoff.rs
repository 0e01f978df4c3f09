use vstd::prelude::*;

verus! {

/// Delay before the first reconnection attempt, in milliseconds.
pub const BACKOFF_BASE_MS: u64 = 1000;

/// Ceiling of every reconnection delay, in milliseconds.
pub const BACKOFF_CEILING_MS: u64 = 60000;

/// Number of consecutive failed attempts after which a worker gives up.
pub const BACKOFF_MAX_RETRIES: u32 = 20;

/// `2^n`.
pub open spec fn pow2(n: nat) -> nat
    decreases n,
{
    if n == 0 {
        1
    } else {
        2 * pow2((n - 1) as nat)
    }
}

/// The delay after `attempts` consecutive failures: the base delay doubled
/// once per failure, cut at the ceiling.
pub open spec fn backoff_ms(attempts: nat) -> nat {
    if BACKOFF_BASE_MS * pow2(attempts) >= BACKOFF_CEILING_MS {
        BACKOFF_CEILING_MS as nat
    } else {
        (BACKOFF_BASE_MS * pow2(attempts)) as nat
    }
}

proof fn lemma_pow2_monotone(a: nat, b: nat)
    requires
        a <= b,
    ensures
        pow2(a) <= pow2(b),
    decreases b,
{
    if a < b {
        lemma_pow2_monotone(a, (b - 1) as nat);
    }
}

/// The reconnection delay never shrinks as failures accumulate, and never
/// exceeds the ceiling.
pub proof fn lemma_backoff_monotone_bounded(a: nat, b: nat)
    requires
        a <= b,
    ensures
        backoff_ms(a) <= backoff_ms(b),
        backoff_ms(b) <= BACKOFF_CEILING_MS,
{
    lemma_pow2_monotone(a, b);
    assert(BACKOFF_BASE_MS * pow2(a) <= BACKOFF_BASE_MS * pow2(b)) by (nonlinear_arith)
        requires
            pow2(a) <= pow2(b),
    ;
}

/// The delay to wait after `attempts` consecutive failed connection attempts.
pub fn calculate_backoff(attempts: u32) -> (r: u64)
    ensures
        r == backoff_ms(attempts as nat),
        r <= BACKOFF_CEILING_MS,
        r >= BACKOFF_BASE_MS,
{
    let mut delay: u64 = BACKOFF_BASE_MS;
    let mut i: u32 = 0;
    while i < attempts && delay < BACKOFF_CEILING_MS
        invariant
            i <= attempts,
            delay == BACKOFF_BASE_MS * pow2(i as nat),
            BACKOFF_BASE_MS <= delay,
            i > 0 ==> delay <= 2 * BACKOFF_CEILING_MS,
        decreases attempts - i,
    {
        delay = delay * 2;
        i = i + 1;
    }
    if delay >= BACKOFF_CEILING_MS {
        proof {
            lemma_pow2_monotone(i as nat, attempts as nat);
            assert(BACKOFF_BASE_MS * pow2(i as nat) <= BACKOFF_BASE_MS * pow2(attempts as nat))
                by (nonlinear_arith)
                requires
                    pow2(i as nat) <= pow2(attempts as nat),
            ;
        }
        BACKOFF_CEILING_MS
    } else {
        delay
    }
}

} // verus!
