//! Decision logic around global hook registration.
//!
//! The OS-facing side (installing the hook, pumping its message loop,
//! showing the fatal-error dialog) lives outside the library; it reports
//! plain outcomes here and performs whatever action these functions decide.

use vstd::prelude::*;

verus! {

/// Exit status reported by the process when startup fails.
pub const FAILURE_EXIT_CODE: i32 = 1;

/// What the process does after a hook registration attempt.
#[derive(Clone, Copy, PartialEq, Eq, Structural, Debug)]
pub enum StartupDecision {
    /// The hook is installed: run the capture pipeline.
    Run,
    /// Registration failed for good: present the failure dialog and exit
    /// with [`FAILURE_EXIT_CODE`].
    FailDialog,
}

/// Deterministic startup policy: a registered hook runs the pipeline; a
/// refused registration is surfaced as a dialog followed by a non-zero
/// exit, never a silent crash.
pub fn decide_startup(hook_registered: bool) -> (d: StartupDecision)
    ensures
        d == (if hook_registered {
            StartupDecision::Run
        } else {
            StartupDecision::FailDialog
        }),
{
    if hook_registered {
        StartupDecision::Run
    } else {
        StartupDecision::FailDialog
    }
}

/// Two to the power of `e`, as an unbounded integer.
pub open spec fn pow2(e: u32) -> int
    decreases e,
{
    if e == 0 {
        1
    } else {
        2 * pow2((e - 1) as u32)
    }
}

/// `base * 2^e`, saturating at `u64::MAX`.
pub open spec fn saturating_mul_pow2(base: u64, e: u32) -> u64 {
    if base as int * pow2(e) > u64::MAX {
        u64::MAX as u64
    } else {
        (base as int * pow2(e)) as u64
    }
}

/// Bounded retry with doubling backoff for hook re-registration after a
/// reported installation failure: attempt `k` (counted from 0) waits
/// `base_delay_ms * 2^k` milliseconds, saturating at `u64::MAX`; after
/// `max_attempts` failures the caller gives up (`None`) and falls back to
/// [`decide_startup`] with a failed registration.
pub fn retry_backoff_ms(attempt: u32, max_attempts: u32, base_delay_ms: u64) -> (r: Option<u64>)
    ensures
        r == (if attempt < max_attempts {
            Some(saturating_mul_pow2(base_delay_ms, attempt))
        } else {
            None::<u64>
        }),
{
    if attempt >= max_attempts {
        return None;
    }
    let mut acc: u64 = base_delay_ms;
    let mut i: u32 = 0;
    while i < attempt
        invariant
            i <= attempt,
            acc == saturating_mul_pow2(base_delay_ms, i),
        decreases attempt - i,
    {
        proof {
            lemma_pow2_pos(i);
            assert(pow2((i + 1) as u32) == 2 * pow2(i));
            assert(base_delay_ms as int * (2 * pow2(i)) == 2 * (base_delay_ms as int * pow2(i)))
                by (nonlinear_arith);
        }
        if acc > u64::MAX / 2 {
            proof {
                if acc == u64::MAX {
                    assert(base_delay_ms as int * pow2(i) >= u64::MAX);
                }
            }
            acc = u64::MAX;
        } else {
            acc = acc * 2;
        }
        i = i + 1;
    }
    Some(acc)
}

/// Powers of two are positive.
proof fn lemma_pow2_pos(e: u32)
    ensures
        pow2(e) >= 1,
    decreases e,
{
    if e > 0 {
        lemma_pow2_pos((e - 1) as u32);
    }
}

} // verus!
