//! Waiting times that double.

use vstd::arithmetic::power2::{lemma2_to64, lemma_pow2_strictly_increases, lemma_pow2_unfold, pow2};
use vstd::prelude::*;

verus! {

/// The number of milliseconds, or the largest there is where it does not fit.
pub open spec fn capped(millis: int) -> u64 {
    if millis > u64::MAX {
        u64::MAX
    } else {
        millis as u64
    }
}

/// Twice the time.
pub fn doubled(millis: u64) -> (twice: u64)
    ensures
        twice == capped(2 * millis),
{
    if millis > u64::MAX / 2 {
        u64::MAX
    } else {
        2 * millis
    }
}

/// The time to wait after `retry_count` attempts have failed before: one
/// millisecond, doubled for each.
pub fn retry_delay(retry_count: u32) -> (millis: u64)
    ensures
        millis == capped(pow2(retry_count as nat) as int),
{
    let mut millis: u64 = 1;
    let mut i: u32 = 0;
    proof {
        lemma2_to64();
    }
    while i < retry_count && millis < u64::MAX
        invariant
            i <= retry_count,
            millis == capped(pow2(i as nat) as int),
            millis >= 1,
        decreases retry_count - i,
    {
        proof {
            lemma_pow2_unfold((i + 1) as nat);
        }
        millis = doubled(millis);
        i += 1;
    }
    proof {
        if i < retry_count {
            lemma_pow2_strictly_increases(i as nat, retry_count as nat);
        }
    }
    millis
}

/// The time after doubling it a number of times.
pub open spec fn doubled_times(millis: u64, times: nat) -> u64
    decreases times,
{
    if times == 0 {
        millis
    } else {
        capped(2 * doubled_times(millis, (times - 1) as nat))
    }
}

/// Doubling a time again and again multiplies it by a power of two, up to the
/// largest time there is.
pub proof fn law_doubled_times(millis: u64, times: nat)
    ensures
        doubled_times(millis, times) == capped(millis * pow2(times)),
    decreases times,
{
    lemma2_to64();
    if times > 0 {
        law_doubled_times(millis, (times - 1) as nat);
        lemma_pow2_unfold(times);
        let p = pow2((times - 1) as nat);
        let m = millis as int;
        assert(m * (2 * p) == 2 * (m * p)) by (nonlinear_arith);
        assert(m * p >= 0) by (nonlinear_arith)
            requires
                m >= 0,
                p >= 0,
        ;
        assert(millis * pow2(times) == 2 * (m * p));
    } else {
        assert(millis * pow2(0) == millis) by (nonlinear_arith)
            requires
                pow2(0) == 1,
        ;
    }
}

/// A later attempt never waits shorter than an earlier one.
pub proof fn law_retry_delay_grows(earlier: u32, later: u32)
    requires
        earlier <= later,
    ensures
        capped(pow2(earlier as nat) as int) <= capped(pow2(later as nat) as int),
{
    if earlier < later {
        lemma_pow2_strictly_increases(earlier as nat, later as nat);
    }
}

/// A number of milliseconds that fits stays as it is, and one that does not
/// becomes the largest that does.
pub proof fn law_capped_at_the_largest(millis: int)
    requires
        0 <= millis,
    ensures
        millis <= 0xffff_ffff_ffff_ffff ==> capped(millis) == millis,
        millis > 0xffff_ffff_ffff_ffff ==> capped(millis) == 0xffff_ffff_ffff_ffffu64,
{
}

/// The first attempt is followed by a wait of one millisecond, and every other
/// by one twice as long as the wait before it, until it would not fit any more.
pub proof fn law_retry_delay_doubles(retry_count: nat)
    ensures
        capped(pow2(0) as int) == 1,
        2 * capped(pow2(retry_count) as int) <= 0xffff_ffff_ffff_ffff ==> capped(
            pow2(retry_count + 1) as int,
        ) == 2 * capped(pow2(retry_count) as int),
        2 * capped(pow2(retry_count) as int) > 0xffff_ffff_ffff_ffff ==> capped(
            pow2(retry_count + 1) as int,
        ) == 0xffff_ffff_ffff_ffffu64,
{
    lemma2_to64();
    lemma_pow2_unfold(retry_count + 1);
}

} // verus!
