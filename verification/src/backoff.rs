//! Exponential backoff with a ceiling.

use vstd::arithmetic::power2::pow2;
use vstd::prelude::*;

verus! {

/// `base` doubled `steps` times, clamped to `ceiling`.
pub open spec fn clamped_backoff(base: u64, steps: nat, ceiling: u64) -> int {
    if base * pow2(steps) <= ceiling {
        base * pow2(steps)
    } else {
        ceiling as int
    }
}

/// Computes [`clamped_backoff`].
pub fn backoff(base: u64, steps: u32, ceiling: u64) -> (delay: u64)
    requires
        steps < 64,
    ensures
        delay == clamped_backoff(base, steps as nat, ceiling),
{
    let mut delay: u64 = base;
    let mut step: u32 = 0;
    proof {
        vstd::arithmetic::power2::lemma2_to64();
    }
    while step < steps
        invariant
            step <= steps,
            steps < 64,
            delay == if base * pow2(
                step as nat,
            ) <= u64::MAX { base * pow2(step as nat) } else { u64::MAX as int },
        decreases steps - step,
    {
        proof {
            vstd::arithmetic::power2::lemma_pow2_unfold((step + 1) as nat);
            let power = pow2(step as nat) as int;
            assert(base * (2 * power) == 2 * (base * power)) by (nonlinear_arith);
        }
        delay = delay.saturating_add(delay);
        step = step + 1;
    }
    if delay < ceiling {
        delay
    } else {
        ceiling
    }
}

} // verus!
