//! Misc utilities: converting sample counts between formats and durations.

use std::time::Duration;
use vstd::prelude::*;

pub mod test;

verus! {

/// The number of microseconds in a second.
pub const MICROS_PER_SEC: u64 = 1_000_000;

/// The total number of nanoseconds a `Duration` holds.
pub uninterp spec fn duration_nanos(d: Duration) -> nat;

/// The number of whole microseconds a `Duration` holds.
pub open spec fn duration_micros(d: Duration) -> nat {
    duration_nanos(d) / 1000
}

/// A `Duration` is a whole number of seconds that fits in a `u64` and less
/// than a second of nanoseconds, so it holds fewer nanoseconds than this.
pub open spec fn duration_nanos_bound() -> nat {
    18_446_744_073_709_551_616_000_000_000
}

/// Calls `Duration::as_nanos`, documented to return "the total number of
/// nanoseconds contained by this Duration"; the result is named by
/// [`duration_nanos`]. A `Duration` is documented to be made of a `u64` of
/// whole seconds and a nanosecond part below one second, which bounds it.
#[verifier::external_body]
pub(crate) fn duration_as_nanos(d: &Duration) -> (r: u128)
    ensures
        r == duration_nanos(*d),
        r < duration_nanos_bound(),
{
    d.as_nanos()
}

/// The number of whole microseconds in `d`, as `Duration::as_micros` gives it.
pub(crate) fn duration_as_micros(d: &Duration) -> (r: u128)
    ensures
        r == duration_micros(*d),
        duration_nanos(*d) < duration_nanos_bound(),
{
    duration_as_nanos(d) / 1000
}

/// The number of samples at the new channel count and sample rate that lie at
/// the same time offset as `old_num_samples` at the old ones, truncated.
pub open spec fn samples_at_same_time(
    old_num_samples: int,
    old_channel_count: int,
    old_sample_rate: int,
    new_channel_count: int,
    new_sample_rate: int,
) -> int {
    (old_num_samples * new_channel_count * new_sample_rate) / (old_channel_count * old_sample_rate)
}

/// The number of frames at `new_sample_rate` that lie at the same time offset
/// as `old_num_frames` at `old_sample_rate`, truncated.
pub open spec fn frames_at_same_time(old_num_frames: int, old_sample_rate: int, new_sample_rate: int) -> int {
    (old_num_frames * new_sample_rate) / old_sample_rate
}

/// The inputs on which [`convert_num_samples`] neither divides by zero nor
/// overflows: the old channel count and sample rate are not zero,
/// `old_num_samples * old_channel_count * old_sample_rate` fits into a `u64`,
/// and so does the result.
pub open spec fn convert_num_samples_ok(
    old_num_samples: int,
    old_channel_count: int,
    old_sample_rate: int,
    new_channel_count: int,
    new_sample_rate: int,
) -> bool {
    &&& old_channel_count > 0
    &&& old_sample_rate > 0
    &&& old_num_samples * old_channel_count * old_sample_rate <= u64::MAX
    &&& samples_at_same_time(
        old_num_samples,
        old_channel_count,
        old_sample_rate,
        new_channel_count,
        new_sample_rate,
    ) <= u64::MAX
}

/// Convert a number of samples at an old sample rate and channel count to a
/// new number of samples at a different channel count or sample rate such
/// that the new number of samples would be at the same time offset as the
/// old number of samples.
///
/// Any fractional samples are truncated.
///
/// `old_num_samples * old_channel_count * old_sample_rate` and the result
/// must fit into a `u64`, and the old channel count and sample rate must not
/// be zero. The product with the new channel count and sample rate is
/// computed in 128 bits.
#[must_use]
pub fn convert_num_samples(
    old_num_samples: u64,
    old_channel_count: u16,
    old_sample_rate: u32,
    new_channel_count: u16,
    new_sample_rate: u32,
) -> (r: u64)
    requires
        convert_num_samples_ok(
            old_num_samples as int,
            old_channel_count as int,
            old_sample_rate as int,
            new_channel_count as int,
            new_sample_rate as int,
        ),
    ensures
        r == samples_at_same_time(
            old_num_samples as int,
            old_channel_count as int,
            old_sample_rate as int,
            new_channel_count as int,
            new_sample_rate as int,
        ),
{
    assert(old_channel_count * old_sample_rate <= u64::MAX) by (nonlinear_arith)
        requires
            old_channel_count <= u16::MAX,
            old_sample_rate <= u32::MAX,
    ;
    assert(old_channel_count * old_sample_rate > 0) by (nonlinear_arith)
        requires
            old_channel_count > 0,
            old_sample_rate > 0,
    ;
    let n = old_num_samples as u128;
    let new_cc = new_channel_count as u128;
    let new_sr = new_sample_rate as u128;
    assert(n * new_cc <= u64::MAX * u16::MAX) by (nonlinear_arith)
        requires
            n <= u64::MAX,
            new_cc <= u16::MAX,
    ;
    assert(n * new_cc * new_sr <= u64::MAX * u16::MAX * u32::MAX) by (nonlinear_arith)
        requires
            n * new_cc <= u64::MAX * u16::MAX,
            new_sr <= u32::MAX,
    ;
    let scaled = n * new_cc * new_sr;
    let divisor = old_channel_count as u128 * old_sample_rate as u128;
    (scaled / divisor) as u64
}

/// Convert a number of frames at `old_sample_rate` to the number of frames at
/// `new_sample_rate` at the same time offset.
///
/// Any fractional frames are truncated. `old_num_samples * new_sample_rate`
/// must fit into a `usize` and `old_sample_rate` must not be zero.
#[must_use]
pub fn convert_num_frames(old_num_samples: usize, old_sample_rate: usize, new_sample_rate: usize) -> (r: usize)
    requires
        old_sample_rate > 0,
        old_num_samples * new_sample_rate <= usize::MAX,
    ensures
        r == frames_at_same_time(old_num_samples as int, old_sample_rate as int, new_sample_rate as int),
{
    (old_num_samples * new_sample_rate) / old_sample_rate
}

/// Return the number of frames that happen within `duration` amount of time
/// (truncates).
///
/// The number of microseconds in `duration` times `sample_rate` must fit into
/// a `usize`; [`checked_duration_to_num_frames`] checks this first.
#[must_use]
pub fn duration_to_num_frames(duration: Duration, sample_rate: usize) -> (r: usize)
    requires
        duration_micros(duration) * sample_rate <= usize::MAX,
        duration_micros(duration) <= usize::MAX,
    ensures
        r == frames_at_same_time(duration_micros(duration) as int, MICROS_PER_SEC as int, sample_rate as int),
{
    let micros = duration_as_micros(&duration);
    convert_num_frames(micros as usize, 1_000_000, sample_rate)
}

/// [`duration_to_num_frames`], or `None` where its result does not fit.
#[must_use]
pub fn checked_duration_to_num_frames(duration: Duration, sample_rate: usize) -> (r: Option<usize>)
    ensures
        r is Some <==> (duration_micros(duration) * sample_rate <= usize::MAX
            && duration_micros(duration) <= usize::MAX),
        r matches Some(n) ==> n == frames_at_same_time(
            duration_micros(duration) as int,
            MICROS_PER_SEC as int,
            sample_rate as int,
        ),
{
    let micros = duration_as_micros(&duration);
    if micros > usize::MAX as u128 {
        return None;
    }
    let micros = micros as usize;
    match micros.checked_mul(sample_rate) {
        Some(_) => Some(duration_to_num_frames(duration, sample_rate)),
        None => None,
    }
}

/// The inputs on which [`duration_to_num_samples`] does not overflow.
pub open spec fn duration_to_num_samples_ok(micros: int, channel_count: int, sample_rate: int) -> bool {
    &&& micros <= u64::MAX
    &&& micros * channel_count <= u64::MAX
    &&& micros * channel_count * sample_rate <= u64::MAX
}

/// Return the number of samples that happen within `duration` amount of time
/// (truncates).
///
/// The number of microseconds in `duration` times `channel_count` times
/// `sample_rate` must fit into a `u64`; [`checked_duration_to_num_samples`]
/// checks this first.
#[must_use]
pub fn duration_to_num_samples(duration: Duration, channel_count: u16, sample_rate: u32) -> (r: u64)
    requires
        duration_to_num_samples_ok(duration_micros(duration) as int, channel_count as int, sample_rate as int),
    ensures
        r == samples_at_same_time(
            duration_micros(duration) as int,
            1,
            MICROS_PER_SEC as int,
            channel_count as int,
            sample_rate as int,
        ),
{
    let micros = duration_as_micros(&duration) as u64;
    let scaled = micros * channel_count as u64;
    let scaled = scaled * sample_rate as u64;
    scaled / 1_000_000
}

/// [`duration_to_num_samples`], or `None` where its result does not fit.
#[must_use]
pub fn checked_duration_to_num_samples(duration: Duration, channel_count: u16, sample_rate: u32) -> (r: Option<u64>)
    ensures
        r is Some <==> duration_to_num_samples_ok(
            duration_micros(duration) as int,
            channel_count as int,
            sample_rate as int,
        ),
        r matches Some(n) ==> n == samples_at_same_time(
            duration_micros(duration) as int,
            1,
            MICROS_PER_SEC as int,
            channel_count as int,
            sample_rate as int,
        ),
{
    let micros = duration_as_micros(&duration);
    if micros > u64::MAX as u128 {
        return None;
    }
    let micros = micros as u64;
    match micros.checked_mul(channel_count as u64) {
        Some(scaled) => match scaled.checked_mul(sample_rate as u64) {
            Some(_) => Some(duration_to_num_samples(duration, channel_count, sample_rate)),
            None => None,
        },
        None => None,
    }
}

/// Converting a number of samples to the same channel count and sample rate
/// gives the same number back.
pub proof fn lemma_convert_num_samples_identity(n: int, channel_count: int, sample_rate: int)
    requires
        n >= 0,
        channel_count > 0,
        sample_rate > 0,
    ensures
        samples_at_same_time(n, channel_count, sample_rate, channel_count, sample_rate) == n,
{
    assert(n * channel_count * sample_rate == n * (channel_count * sample_rate)) by (nonlinear_arith);
    assert(channel_count * sample_rate > 0) by (nonlinear_arith)
        requires
            channel_count > 0,
            sample_rate > 0,
    ;
    vstd::arithmetic::div_mod::lemma_div_multiples_vanish(n, channel_count * sample_rate);
}

/// Converting a number of samples to another format and back never gives
/// more samples than there were: fractions are only ever dropped.
pub proof fn lemma_convert_num_samples_round_trip(n: int, cc_a: int, rate_a: int, cc_b: int, rate_b: int)
    requires
        n >= 0,
        cc_a > 0,
        rate_a > 0,
        cc_b > 0,
        rate_b > 0,
    ensures
        samples_at_same_time(samples_at_same_time(n, cc_a, rate_a, cc_b, rate_b), cc_b, rate_b, cc_a, rate_a)
            <= n,
{
    let a = cc_a * rate_a;
    let b = cc_b * rate_b;
    assert(a > 0 && b > 0) by (nonlinear_arith)
        requires
            a == cc_a * rate_a,
            b == cc_b * rate_b,
            cc_a > 0,
            rate_a > 0,
            cc_b > 0,
            rate_b > 0,
    ;
    let m = samples_at_same_time(n, cc_a, rate_a, cc_b, rate_b);
    assert(n * cc_b * rate_b == n * b) by (nonlinear_arith)
        requires
            b == cc_b * rate_b,
    ;
    assert(m * cc_a * rate_a == m * a) by (nonlinear_arith)
        requires
            a == cc_a * rate_a,
    ;
    assert(m == (n * b) / a);
    // m * a <= n * b
    vstd::arithmetic::div_mod::lemma_fundamental_div_mod(n * b, a);
    assert(m * a <= n * b) by (nonlinear_arith)
        requires
            n * b == a * ((n * b) / a) + (n * b) % a,
            (n * b) % a >= 0,
            m == (n * b) / a,
    ;
    // (m * a) / b <= (n * b) / b == n
    vstd::arithmetic::div_mod::lemma_div_is_ordered(m * a, n * b, b);
    vstd::arithmetic::div_mod::lemma_div_multiples_vanish(n, b);
    assert(n * b == b * n) by (nonlinear_arith);
}

/// Counting one further either stays in the same group of `d` or starts
/// the next one.
pub proof fn lemma_div_mod_step(t: int, d: int)
    requires
        t >= 0,
        d > 0,
    ensures
        t % d + 1 == d ==> (t + 1) / d == t / d + 1 && (t + 1) % d == 0,
        t % d + 1 != d ==> (t + 1) / d == t / d && (t + 1) % d == t % d + 1,
{
    vstd::arithmetic::div_mod::lemma_fundamental_div_mod(t, d);
    let q = t / d;
    let r = t % d;
    if r + 1 == d {
        assert(t + 1 == (q + 1) * d + 0) by (nonlinear_arith)
            requires
                t == d * q + r,
                r + 1 == d,
        ;
        vstd::arithmetic::div_mod::lemma_fundamental_div_mod_converse(t + 1, d, q + 1, 0);
    } else {
        assert(t + 1 == q * d + (r + 1)) by (nonlinear_arith)
            requires
                t == d * q + r,
        ;
        vstd::arithmetic::div_mod::lemma_fundamental_div_mod_converse(t + 1, d, q, r + 1);
    }
}

} // verus!
