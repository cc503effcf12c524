//! Bringing PCM to 16 kHz mono: mixing channels down, and resampling by linear
//! interpolation in integer arithmetic.
//!
//! Neither has one right answer. The mean rounded toward zero, the weights of
//! the interpolation, the held last sample and the audio of rate zero that is
//! kept as it is are this library's own definitions, and [`downmixed`] and
//! [`resampled_pcm`] state them.

use vstd::prelude::*;
use vstd::slice::slice_to_vec;

use crate::pcm::{
    decode_samples, divide, law_quotient, law_samples_of_written_pcm, pcm_bytes, push_sample,
    quotient, samples, TARGET_RATE,
};

verus! {

/// The sum of the `n` samples from `start` on.
pub open spec fn frame_sum(s: Seq<i16>, start: int, n: nat) -> int
    decreases n,
{
    if n == 0 {
        0
    } else {
        frame_sum(s, start, (n - 1) as nat) + s[start + n - 1]
    }
}

/// One sample per frame of `channels` interleaved samples: their mean, rounded
/// toward zero. Samples left over at the end make no frame.
pub open spec fn downmixed(s: Seq<i16>, channels: nat) -> Seq<i16> {
    Seq::new(
        s.len() / channels,
        |f: int| quotient(frame_sum(s, f * channels, channels), channels as int) as i16,
    )
}

/// A sum of samples is bounded by their number.
proof fn lemma_frame_sum_bound(s: Seq<i16>, start: int, n: nat)
    ensures
        -32768 * n <= frame_sum(s, start, n) <= 32767 * n,
    decreases n,
{
    if n > 0 {
        lemma_frame_sum_bound(s, start, (n - 1) as nat);
    }
}

/// A quotient lies between the same bounds as the dividend's share.
proof fn lemma_quotient_bound(a: int, b: int, low: int, high: int)
    requires
        b > 0,
        low <= 0 <= high,
        low * b <= a <= high * b,
    ensures
        low <= quotient(a, b) <= high,
{
    if a >= 0 {
        assert(0 <= a / b <= high) by (nonlinear_arith)
            requires
                b > 0,
                0 <= a <= high * b,
        ;
    } else {
        let m = -a;
        assert(0 <= m / b <= -low) by (nonlinear_arith)
            requires
                b > 0,
                0 <= m,
                low * b <= -m,
        ;
    }
}

/// The mean of samples is a sample.
pub proof fn law_mean_is_a_sample(s: Seq<i16>, start: int, n: nat)
    requires
        n > 0,
    ensures
        -32768 <= quotient(frame_sum(s, start, n), n as int) <= 32767,
{
    lemma_frame_sum_bound(s, start, n);
    lemma_quotient_bound(frame_sum(s, start, n), n as int, -32768, 32767);
}

/// Adds up one frame.
fn sum_frame(s: &Vec<i16>, start: usize, channels: u16) -> (r: i64)
    requires
        start + channels <= s.len(),
    ensures
        r == frame_sum(s@, start as int, channels as nat),
        -32768 * channels <= r <= 32767 * channels,
{
    let mut sum: i64 = 0;
    let mut c: u16 = 0;
    while c < channels
        invariant
            c <= channels,
            start + channels <= s.len(),
            sum == frame_sum(s@, start as int, c as nat),
            -32768 * c <= sum <= 32767 * c,
        decreases channels - c,
    {
        sum = sum + s[start + c as usize] as i64;
        c = c + 1;
    }
    sum
}

/// Mixes interleaved PCM down to one channel.
pub fn downmix_to_mono(pcm: &[u8], channels: u16) -> (r: Vec<u8>)
    requires
        channels > 0,
    ensures
        r@ == pcm_bytes(downmixed(samples(pcm@), channels as nat)),
{
    let s: Vec<i16> = decode_samples(pcm);
    let frames: usize = s.len() / channels as usize;
    let mut out: Vec<u8> = Vec::new();
    let mut start: usize = 0;
    let mut f: usize = 0;
    let ghost mixed = downmixed(s@, channels as nat);
    assert(out@ =~= pcm_bytes(mixed.take(0)));
    while f < frames
        invariant
            channels > 0,
            f <= frames,
            frames == s@.len() / channels as nat,
            start == f * channels,
            mixed == downmixed(s@, channels as nat),
            out@ == pcm_bytes(mixed.take(f as int)),
        decreases frames - f,
    {
        proof {
            let n = s@.len() as int;
            let ch = channels as int;
            assert((f + 1) * ch <= n) by (nonlinear_arith)
                requires
                    f + 1 <= n / ch,
                    ch > 0,
                    n >= 0,
            ;
            assert((f + 1) * ch == f * ch + ch) by (nonlinear_arith);
            law_mean_is_a_sample(s@, start as int, channels as nat);
        }
        let mean: i64 = divide(sum_frame(&s, start, channels), channels as i64);
        push_sample(&mut out, Ghost(mixed.take(f as int)), mean as i16);
        start = start + channels as usize;
        f = f + 1;
        assert(mixed.take(f as int) =~= mixed.take(f - 1).push(mean as i16));
    }
    assert(mixed.take(frames as int) =~= mixed);
    out
}

/// The value at output position `k` of samples taken at `rate`: the two input
/// samples around that instant, weighted by their distance from it and rounded
/// toward zero. Past the last input sample its value is held.
pub open spec fn interpolated(s: Seq<i16>, rate: int, k: int) -> int {
    let i = k * rate / (TARGET_RATE as int);
    let after = k * rate % (TARGET_RATE as int);
    let next = if i + 1 < s.len() {
        s[i + 1]
    } else {
        s[i]
    };
    quotient(s[i] * (TARGET_RATE - after) + next * after, TARGET_RATE as int)
}

/// Samples taken at `rate`, at 16 kHz.
pub open spec fn resampled(s: Seq<i16>, rate: int) -> Seq<i16> {
    Seq::new(
        (s.len() * TARGET_RATE / rate) as nat,
        |k: int| interpolated(s, rate, k) as i16,
    )
}

/// PCM taken at `rate`, at 16 kHz. A rate of zero says nothing about the audio,
/// which is then kept as it is.
pub open spec fn resampled_pcm(pcm: Seq<u8>, rate: int) -> Seq<u8> {
    if rate == 0 {
        pcm
    } else {
        pcm_bytes(resampled(samples(pcm), rate))
    }
}

/// A value weighted between two samples is a sample.
proof fn lemma_weighted_bound(a: i16, b: i16, after: int)
    requires
        0 <= after < TARGET_RATE,
    ensures
        -32768 * TARGET_RATE <= a * (TARGET_RATE - after) + b * after <= 32767 * TARGET_RATE,
        -32768 <= quotient(a * (TARGET_RATE - after) + b * after, TARGET_RATE as int) <= 32767,
        -32768 * TARGET_RATE <= a * (TARGET_RATE - after) <= 32767 * TARGET_RATE,
        -32768 * TARGET_RATE <= b * after <= 32767 * TARGET_RATE,
{
    let before = TARGET_RATE - after;
    assert(-32768 * before <= a * before <= 32767 * before) by (nonlinear_arith)
        requires
            before >= 0,
            -32768 <= a <= 32767,
    ;
    assert(-32768 * after <= b * after <= 32767 * after) by (nonlinear_arith)
        requires
            after >= 0,
            -32768 <= b <= 32767,
    ;
    lemma_quotient_bound(a * before + b * after, TARGET_RATE as int, -32768, 32767);
}

/// Every output position lies within the input.
proof fn lemma_position_in_input(n: int, rate: int, k: int)
    requires
        n >= 0,
        rate > 0,
        0 <= k < n * TARGET_RATE / rate,
    ensures
        0 <= k * rate < n * TARGET_RATE,
        0 <= k * rate / (TARGET_RATE as int) < n,
{
    let m = n * TARGET_RATE;
    assert(0 <= k * rate < m) by (nonlinear_arith)
        requires
            0 <= k,
            k + 1 <= m / rate,
            rate > 0,
    ;
}

/// An interpolated value is a sample.
pub proof fn law_interpolated_is_a_sample(s: Seq<i16>, rate: int, k: int)
    requires
        rate > 0,
        0 <= k < s.len() * TARGET_RATE / rate,
    ensures
        0 <= k * rate / (TARGET_RATE as int) < s.len(),
        -32768 <= interpolated(s, rate, k) <= 32767,
{
    lemma_position_in_input(s.len() as int, rate, k);
    let i = k * rate / (TARGET_RATE as int);
    let after = k * rate % (TARGET_RATE as int);
    let next = if i + 1 < s.len() {
        s[i + 1]
    } else {
        s[i]
    };
    lemma_weighted_bound(s[i], next, after);
}

/// Computes the value at the instant `at` sixteen-thousandths of an input
/// sample after the first one.
fn interpolate(s: &Vec<i16>, at: u128, Ghost(rate): Ghost<int>, Ghost(k): Ghost<int>) -> (r: i16)
    requires
        rate > 0,
        0 <= k < s@.len() * TARGET_RATE / rate,
        at == k * rate,
    ensures
        r == interpolated(s@, rate, k) as i16,
{
    proof {
        law_interpolated_is_a_sample(s@, rate, k);
    }
    let i: usize = (at / TARGET_RATE as u128) as usize;
    let after: i64 = (at % TARGET_RATE as u128) as i64;
    let here: i16 = s[i];
    let next: i16 = if i < s.len() - 1 {
        s[i + 1]
    } else {
        here
    };
    proof {
        lemma_weighted_bound(here, next, after as int);
    }
    let weighted: i64 = here as i64 * (TARGET_RATE as i64 - after) + next as i64 * after;
    divide(weighted, TARGET_RATE as i64) as i16
}

/// Resamples mono PCM taken at `rate` to 16 kHz.
pub fn resample_to_16k(pcm: &[u8], rate: u32) -> (r: Vec<u8>)
    ensures
        r@ == resampled_pcm(pcm@, rate as int),
{
    if rate == 0 {
        return slice_to_vec(pcm);
    }
    let s: Vec<i16> = decode_samples(pcm);
    let count: u128 = s.len() as u128 * TARGET_RATE as u128 / rate as u128;
    let mut out: Vec<u8> = Vec::new();
    let mut at: u128 = 0;
    let mut k: u128 = 0;
    let ghost heard = resampled(s@, rate as int);
    assert(out@ =~= pcm_bytes(heard.take(0)));
    assert(heard.len() == count);
    while k < count
        invariant
            rate > 0,
            k <= count,
            count == s@.len() * TARGET_RATE / rate as int,
            s@.len() <= usize::MAX,
            at == k * rate,
            heard == resampled(s@, rate as int),
            heard.len() == count,
            out@ == pcm_bytes(heard.take(k as int)),
        decreases count - k,
    {
        proof {
            lemma_position_in_input(s@.len() as int, rate as int, k as int);
            assert((k + 1) * rate == k * rate + rate) by (nonlinear_arith);
        }
        let v: i16 = interpolate(&s, at, Ghost(rate as int), Ghost(k as int));
        push_sample(&mut out, Ghost(heard.take(k as int)), v);
        at = at + rate as u128;
        k = k + 1;
        assert(heard.take(k as int) =~= heard.take(k - 1).push(v));
    }
    assert(heard.take(count as int) =~= heard);
    out
}

/// Mixing down a single channel changes nothing.
pub proof fn law_downmix_of_mono(s: Seq<i16>)
    ensures
        downmixed(s, 1) == s,
{
    assert forall|f: int| 0 <= f < s.len() implies downmixed(s, 1)[f] == s[f] by {
        reveal_with_fuel(frame_sum, 2);
        assert(f * 1 == f);
        assert(frame_sum(s, f, 1) == s[f]);
    }
    assert(downmixed(s, 1) =~= s);
}

/// Channels that carry the same samples mix down to those samples.
pub proof fn law_downmix_of_equal_channels(s: Seq<i16>, channels: nat)
    requires
        channels > 0,
        s.len() % channels == 0,
        forall|i: int, j: int|
            #![trigger s[i], s[j]]
            0 <= i < s.len() && 0 <= j < s.len() && i / (channels as int) == j / (channels as int)
                ==> s[i] == s[j],
    ensures
        forall|f: int|
            0 <= f < s.len() / channels ==> #[trigger] downmixed(s, channels)[f] == s[f * channels],
{
    let ch = channels as int;
    assert forall|f: int| 0 <= f < s.len() / channels implies #[trigger] downmixed(s, channels)[f]
        == s[f * channels] by {
        assert(f * ch + ch <= s.len()) by (nonlinear_arith)
            requires
                f + 1 <= s.len() as int / ch,
                ch > 0,
        ;
        lemma_equal_frame_sum(s, channels, f, channels);
        let v = s[f * ch] as int;
        let m = if v >= 0 {
            v
        } else {
            -v
        };
        assert((ch * m) / ch == m) by (nonlinear_arith)
            requires
                ch > 0,
        ;
        assert(-(ch * v) == ch * (-v)) by (nonlinear_arith);
        assert(ch * v >= 0 <==> v >= 0) by (nonlinear_arith)
            requires
                ch > 0,
        ;
    }
}

/// A frame of equal samples adds up to a multiple of the first.
proof fn lemma_equal_frame_sum(s: Seq<i16>, channels: nat, f: int, n: nat)
    requires
        channels > 0,
        n <= channels,
        0 <= f,
        f * channels + channels <= s.len(),
        forall|i: int, j: int|
            #![trigger s[i], s[j]]
            0 <= i < s.len() && 0 <= j < s.len() && i / (channels as int) == j / (channels as int)
                ==> s[i] == s[j],
    ensures
        frame_sum(s, f * channels, n) == n * s[f * channels],
    decreases n,
{
    let ch = channels as int;
    let start = f * ch;
    assert(start >= 0) by (nonlinear_arith)
        requires
            f >= 0,
            ch > 0,
            start == f * ch,
    ;
    if n > 0 {
        lemma_equal_frame_sum(s, channels, f, (n - 1) as nat);
        let j = start + n - 1;
        assert(start / ch == f && j / ch == f) by (nonlinear_arith)
            requires
                ch > 0,
                start == f * ch,
                start <= j < start + ch,
        ;
        assert(s[start] == s[j]);
        assert((n - 1) * s[start] + s[start] == n * s[start]) by (nonlinear_arith);
    } else {
        assert(0 * s[start] == 0);
    }
}

/// Audio that is at 16 kHz already is not changed by resampling.
pub proof fn law_resample_of_target_rate(s: Seq<i16>)
    ensures
        resampled(s, TARGET_RATE as int) == s,
{
    assert forall|k: int| 0 <= k < s.len() implies resampled(s, TARGET_RATE as int)[k] == s[k] by {
        let v = s[k];
        assert(k * TARGET_RATE / (TARGET_RATE as int) == k);
        assert(k * TARGET_RATE % (TARGET_RATE as int) == 0);
        let next = if k + 1 < s.len() {
            s[k + 1]
        } else {
            s[k]
        };
        assert(v * (TARGET_RATE - 0) + next * 0 == v * 16_000);
    }
    assert(resampled(s, TARGET_RATE as int) =~= s);
}

/// Resampling keeps the duration: the output holds as many samples as 16 kHz
/// takes in the time that the input lasts, to within one sample.
pub proof fn law_resample_keeps_duration(s: Seq<i16>, rate: int)
    requires
        rate > 0,
    ensures
        resampled(s, rate).len() * rate <= s.len() * TARGET_RATE < (resampled(s, rate).len() + 1)
            * rate,
{
    let m = (s.len() * TARGET_RATE) as int;
    let q = m / rate;
    assert(q * rate <= m < (q + 1) * rate) by (nonlinear_arith)
        requires
            q == m / rate,
            rate > 0,
    ;
}

/// Audio that does not change over time does not change when resampled.
pub proof fn law_resample_of_constant(s: Seq<i16>, rate: int, v: i16)
    requires
        rate > 0,
        forall|i: int| 0 <= i < s.len() ==> #[trigger] s[i] == v,
    ensures
        forall|k: int|
            0 <= k < resampled(s, rate).len() ==> #[trigger] resampled(s, rate)[k] == v,
{
    assert forall|k: int| 0 <= k < resampled(s, rate).len() implies #[trigger] resampled(s, rate)[k]
        == v by {
        law_interpolated_is_a_sample(s, rate, k);
        let after = k * rate % (TARGET_RATE as int);
        assert(v * (16_000 - after) + v * after == v * 16_000) by (nonlinear_arith);
    }
}

/// A frame adds up sample by sample, from the first one on.
pub proof fn law_frame_sum(s: Seq<i16>, start: int, n: nat)
    ensures
        frame_sum(s, start, 0) == 0,
        frame_sum(s, start, n + 1) == frame_sum(s, start, n) + s[start + n],
{
}

/// Mixing down makes one sample of every whole frame, in order, and every
/// channel has an equal share in it: that many times the sample is the sum of
/// the frame, to within the rounding toward zero.
pub proof fn law_downmix_is_the_mean(s: Seq<i16>, channels: nat)
    requires
        channels > 0,
    ensures
        downmixed(s, channels).len() == s.len() / channels,
        forall|f: int|
            0 <= f < s.len() / channels && frame_sum(s, f * channels, channels) >= 0 ==> 0 <= (
            #[trigger] downmixed(s, channels)[f]) * channels <= frame_sum(s, f * channels, channels)
                < (downmixed(s, channels)[f] + 1) * channels,
        forall|f: int|
            0 <= f < s.len() / channels && frame_sum(s, f * channels, channels) <= 0 ==> ((
            #[trigger] downmixed(s, channels)[f]) - 1) * channels < frame_sum(
                s,
                f * channels,
                channels,
            ) <= downmixed(s, channels)[f] * channels <= 0,
{
    assert forall|f: int| 0 <= f < s.len() / channels implies #[trigger] downmixed(s, channels)[f]
        == quotient(frame_sum(s, f * channels, channels), channels as int) by {
        law_mean_is_a_sample(s, f * channels, channels);
    }
    assert forall|f: int| #![trigger downmixed(s, channels)[f]] 0 <= f < s.len() / channels implies ({
        let sum = frame_sum(s, f * channels, channels);
        let q = quotient(sum, channels as int);
        &&& sum >= 0 ==> 0 <= q * channels <= sum < (q + 1) * channels
        &&& sum <= 0 ==> (q - 1) * channels < sum <= q * channels <= 0
    }) by {
        law_quotient(frame_sum(s, f * channels, channels), channels as int);
    }
}

/// Two channels mix down to half the sum of their samples, to within the
/// rounding.
pub proof fn law_downmix_of_stereo(s: Seq<i16>, f: int)
    requires
        0 <= f < s.len() / 2,
    ensures
        -2 < 2 * downmixed(s, 2)[f] - (s[2 * f] + s[2 * f + 1]) < 2,
{
    law_downmix_is_the_mean(s, 2);
    reveal_with_fuel(frame_sum, 3);
    assert(f * 2 == 2 * f);
    assert(frame_sum(s, f * 2, 2) == s[2 * f] + s[2 * f + 1]);
    assert(downmixed(s, 2)[f] * 2 == 2 * downmixed(s, 2)[f]);
}

/// Output sample `k` is heard where it was spoken, `k * rate` sixteen-thousandths
/// of an input sample after the first one: there lies the line between the two
/// input samples around that instant, and the output is on it, to within the
/// rounding. Behind the last input sample the line is level.
pub proof fn law_resample_lies_on_the_line(s: Seq<i16>, rate: int, k: int, i: int, after: int)
    requires
        rate > 0,
        0 <= k < s.len() as int * 16_000 / rate,
        k * rate == i * 16_000 + after,
        0 <= after < 16_000,
    ensures
        resampled(s, rate).len() == s.len() as int * 16_000 / rate,
        0 <= i < s.len(),
        i + 1 < s.len() ==> -16_000 < resampled(s, rate)[k] * 16_000 - (s[i] * (16_000 - after)
            + s[i + 1] * after) < 16_000,
        i + 1 == s.len() ==> resampled(s, rate)[k] == s[i],
        after == 0 ==> resampled(s, rate)[k] == s[i],
{
    law_interpolated_is_a_sample(s, rate, k);
    assert(k * rate / 16_000 == i && k * rate % 16_000 == after);
    let next = if i + 1 < s.len() {
        s[i + 1]
    } else {
        s[i]
    };
    let v = s[i];
    let line = v * (16_000 - after) + next * after;
    assert(interpolated(s, rate, k) == quotient(line, 16_000));
    assert(resampled(s, rate)[k] == quotient(line, 16_000));
    law_quotient(line, 16_000);
    if i + 1 == s.len() {
        assert(v * (16_000 - after) + v * after == v * 16_000) by (nonlinear_arith);
    }
    if after == 0 {
        assert(next * after == 0) by (nonlinear_arith)
            requires
                after == 0,
        ;
        assert(line == v * 16_000);
    }
}

/// Audio at a multiple of 16 kHz is thinned out: one sample in that many is
/// kept, as it is.
pub proof fn law_resample_of_multiple(s: Seq<i16>, m: int)
    requires
        m > 0,
    ensures
        resampled(s, 16_000 * m).len() == s.len() as int / m,
        forall|k: int| 0 <= k < s.len() as int / m ==> #[trigger] resampled(s, 16_000 * m)[k] == s[k * m],
{
    let n = s.len() as int;
    let rate = 16_000 * m;
    assert(n * 16_000 / rate == n / m) by (nonlinear_arith)
        requires
            m > 0,
            n >= 0,
            rate == 16_000 * m,
    ;
    assert forall|k: int| 0 <= k < n / m implies #[trigger] resampled(s, rate)[k] == s[k * m] by {
        assert(k * rate == (k * m) * 16_000 + 0) by (nonlinear_arith)
            requires
                rate == 16_000 * m,
        ;
        law_resample_lies_on_the_line(s, rate, k, k * m, 0);
    }
}

/// Resampled PCM holds the resampled samples, and nothing else.
pub proof fn law_resampled_pcm(pcm: Seq<u8>, rate: int)
    requires
        rate > 0,
    ensures
        samples(resampled_pcm(pcm, rate)) == resampled(samples(pcm), rate),
        resampled_pcm(pcm, rate).len() % 2 == 0,
        resampled_pcm(pcm, 0) == pcm,
{
    law_samples_of_written_pcm(resampled(samples(pcm), rate));
}

} // verus!
