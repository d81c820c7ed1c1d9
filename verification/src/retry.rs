//! Retry with exponential backoff: how long to wait before each new attempt
//! (the initial backoff doubled for each failed attempt, capped), and when
//! to give up.
//!
//! The random jitter added to a wait is the caller's.

use vstd::prelude::*;

verus! {

/// Configuration for exponential backoff retry. The jitter, a fraction of
/// the backoff, is kept in thousandths.
#[derive(Debug, Clone)]
pub struct RetryConfig {
    /// Maximum number of attempts before giving up.
    pub max_attempts: u32,
    /// Initial backoff in milliseconds.
    pub initial_backoff_ms: u64,
    /// Maximum backoff in milliseconds.
    pub max_backoff_ms: u64,
    /// Random variation of a backoff, either way, in thousandths of it.
    pub jitter_permille: u32,
}

impl Default for RetryConfig {
    /// Five attempts, from one second up to a minute, with 20% jitter.
    fn default() -> (c: Self)
        ensures
            c.max_attempts == 5,
            c.initial_backoff_ms == 1000,
            c.max_backoff_ms == 60_000,
            c.jitter_permille == 200,
    {
        RetryConfig { max_attempts: 5, initial_backoff_ms: 1000, max_backoff_ms: 60_000, jitter_permille: 200 }
    }
}

impl RetryConfig {
    /// Shorter retry config for quick operations: three attempts, from half
    /// a second up to ten seconds, with 20% jitter.
    pub fn fast() -> (c: Self)
        ensures
            c.max_attempts == 3,
            c.initial_backoff_ms == 500,
            c.max_backoff_ms == 10_000,
            c.jitter_permille == 200,
    {
        RetryConfig { max_attempts: 3, initial_backoff_ms: 500, max_backoff_ms: 10_000, jitter_permille: 200 }
    }

    /// Longer retry config for rate-limited LLM API calls: five attempts,
    /// from two seconds up to two minutes, with 20% jitter.
    pub fn llm_api() -> (c: Self)
        ensures
            c.max_attempts == 5,
            c.initial_backoff_ms == 2000,
            c.max_backoff_ms == 120_000,
            c.jitter_permille == 200,
    {
        RetryConfig { max_attempts: 5, initial_backoff_ms: 2000, max_backoff_ms: 120_000, jitter_permille: 200 }
    }
}

/// Two to the power `k`.
pub open spec fn two_pow(k: nat) -> nat
    decreases k,
{
    if k == 0 { 1 } else { 2 * two_pow((k - 1) as nat) }
}

/// `x`, or `u64::MAX` when `x` exceeds it (saturating arithmetic).
pub open spec fn saturate(x: nat) -> nat {
    if x > u64::MAX { u64::MAX as nat } else { x }
}

/// The backoff before the retry that follows failed attempt `attempt`
/// (counted from 1): the initial backoff times two to the power
/// `attempt - 1`, in saturating arithmetic, capped at the maximum.
pub open spec fn backoff_ms(initial_ms: u64, max_ms: u64, attempt: u32) -> nat {
    let exp = if attempt == 0 { 0 } else { (attempt - 1) as nat };
    let base = saturate((initial_ms as nat) * saturate(two_pow(exp)));
    if base <= max_ms { base } else { max_ms as nat }
}

/// Two to the power `k` in saturating `u64` arithmetic.
fn saturating_pow2(k: u32) -> (r: u64)
    ensures
        r == saturate(two_pow(k as nat)),
{
    let mut v: u64 = 1;
    let mut i: u32 = 0;
    while i < k
        invariant
            i <= k,
            v == saturate(two_pow(i as nat)),
        decreases k - i,
    {
        if v == u64::MAX {
            proof {
                lemma_saturated_stays(i as nat, k as nat);
            }
            return v;
        }
        proof {
            assert(two_pow((i + 1) as nat) == 2 * two_pow(i as nat));
        }
        if v > u64::MAX / 2 {
            v = u64::MAX;
        } else {
            v = v * 2;
        }
        i += 1;
    }
    v
}

proof fn lemma_two_pow_mono(a: nat, b: nat)
    requires
        a <= b,
    ensures
        two_pow(a) <= two_pow(b),
        two_pow(a) >= 1,
    decreases b,
{
    if b > a {
        lemma_two_pow_mono(a, (b - 1) as nat);
    } else if a > 0 {
        lemma_two_pow_mono((a - 1) as nat, (a - 1) as nat);
    }
}

proof fn lemma_saturated_stays(i: nat, k: nat)
    requires
        i <= k,
        saturate(two_pow(i)) == u64::MAX,
    ensures
        saturate(two_pow(k)) == u64::MAX,
{
    lemma_two_pow_mono(i, k);
}

/// The backoff, in milliseconds, before the retry that follows failed
/// attempt `attempt` (see `backoff_ms`).
pub fn capped_backoff_ms(initial_ms: u64, max_ms: u64, attempt: u32) -> (r: u64)
    ensures
        r == backoff_ms(initial_ms, max_ms, attempt),
{
    let exp = if attempt == 0 { 0 } else { attempt - 1 };
    let p = saturating_pow2(exp);
    let base: u64 = if p != 0 && initial_ms > u64::MAX / p {
        proof {
            assert(initial_ms * p > u64::MAX) by (nonlinear_arith)
                requires
                    p > 0,
                    initial_ms > u64::MAX / p;
        }
        u64::MAX
    } else {
        proof {
            assert(initial_ms * p <= u64::MAX) by (nonlinear_arith)
                requires
                    p == 0 || initial_ms <= u64::MAX / p;
        }
        initial_ms * p
    };
    if base <= max_ms { base } else { max_ms }
}

/// What to do after an attempt fails.
#[derive(Debug, Clone, Copy, PartialEq, Eq)]
pub enum RetryStep {
    /// Give up and report the error: the attempts are used up.
    GiveUp,
    /// Wait, then make attempt number `attempt + 1` (`attempt` failures so
    /// far).
    Retry { attempt: u32 },
}

/// The decision after a failure, with `failures` failed attempts before it:
/// give up once the failures reach the maximum of attempts, else retry.
pub fn after_failure(failures: u32, max_attempts: u32) -> (s: RetryStep)
    requires
        failures < u32::MAX,
    ensures
        failures + 1 >= max_attempts ==> s == RetryStep::GiveUp,
        failures + 1 < max_attempts ==> s == (RetryStep::Retry { attempt: (failures + 1) as u32 }),
{
    let attempt = failures + 1;
    if attempt >= max_attempts {
        RetryStep::GiveUp
    } else {
        RetryStep::Retry { attempt }
    }
}

/// The backoff never exceeds the maximum and never shrinks from one
/// attempt to the next.
pub proof fn lemma_backoff_capped_and_growing(initial_ms: u64, max_ms: u64, a: u32, b: u32)
    requires
        a <= b,
    ensures
        backoff_ms(initial_ms, max_ms, a) <= max_ms,
        backoff_ms(initial_ms, max_ms, a) <= backoff_ms(initial_ms, max_ms, b),
{
    let ea: nat = if a == 0 { 0 } else { (a - 1) as nat };
    let eb: nat = if b == 0 { 0 } else { (b - 1) as nat };
    lemma_two_pow_mono(ea, eb);
    let pa = saturate(two_pow(ea));
    let pb = saturate(two_pow(eb));
    assert(pa <= pb);
    assert(initial_ms * pa <= initial_ms * pb) by (nonlinear_arith)
        requires
            pa <= pb;
}

} // verus!
