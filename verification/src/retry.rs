//! Short, bounded retry policy for a single product fetch within one sync pass.
//! The product's own interval is the long-term retry; in-run retries only smooth
//! over transient blips, so they are few and quick.

use vstd::prelude::*;

use crate::duration::Duration;

verus! {

/// Total fetch attempts before giving up on a product for this pass.
pub const MAX_ATTEMPTS: u32 = 5;

/// Seconds before the first retry.
pub const BASE_SECS: u64 = 1;

/// Longest delay between two attempts, in seconds.
pub const CAP_SECS: u64 = 30;

/// Largest doubling exponent the backoff uses.
pub const MAX_SHIFT: u32 = 20;

/// Seconds before retry `attempt` (1-based): the base doubled once per earlier
/// attempt (at most `MAX_SHIFT` times), capped at `CAP_SECS`.
pub open spec fn backoff_secs(attempt: nat) -> nat {
    let shift: nat = if attempt == 0 {
        0
    } else if attempt - 1 > MAX_SHIFT {
        MAX_SHIFT as nat
    } else {
        (attempt - 1) as nat
    };
    let secs: nat = (BASE_SECS * vstd::arithmetic::power2::pow2(shift)) as nat;
    if secs <= CAP_SECS {
        secs
    } else {
        CAP_SECS as nat
    }
}

/// Delay before retry `attempt` (1-based). Capped exponential: 1s, 2s, 4s, 8s, …≤30s.
pub fn backoff_delay(attempt: u32) -> (d: Duration)
    ensures
        d@ == backoff_secs(attempt as nat) * 1_000_000_000,
{
    let prior = attempt.saturating_sub(1);
    let shift: u32 = if prior > MAX_SHIFT {
        MAX_SHIFT
    } else {
        prior
    };
    proof {
        vstd::arithmetic::power2::lemma_pow2_strictly_increases(shift as nat, 21);
        vstd::arithmetic::power2::lemma2_to64();
        vstd::bits::lemma_u64_shl_is_mul(1u64, shift as u64);
    }
    let secs = BASE_SECS * (1u64 << (shift as u64));
    Duration::from_secs(secs).shorter(Duration::from_secs(CAP_SECS))
}

/// The backoff never waits longer than the cap, and never shortens from one
/// attempt to the next.
pub proof fn lemma_backoff_capped_and_monotone(a: nat, b: nat)
    requires
        a <= b,
    ensures
        backoff_secs(a) <= CAP_SECS,
        backoff_secs(a) <= backoff_secs(b),
{
    let sa: nat = if a == 0 { 0 } else if a - 1 > MAX_SHIFT { MAX_SHIFT as nat } else { (a - 1) as nat };
    let sb: nat = if b == 0 { 0 } else if b - 1 > MAX_SHIFT { MAX_SHIFT as nat } else { (b - 1) as nat };
    assert(sa <= sb);
    if sa < sb {
        vstd::arithmetic::power2::lemma_pow2_strictly_increases(sa, sb);
    }
}

} // verus!
