//! Recorded samples on their way into frames.

use vstd::prelude::*;

verus! {

broadcast use vstd::seq_lib::group_seq_properties;

/// The number of frames of a call in a second.
pub const FRAMES_PER_SECOND: u32 = 50;

/// The number of samples in a frame at this sample rate: a fiftieth of a
/// second, and at least one.
pub fn frame_samples(sample_rate: u32) -> (r: usize)
    ensures
        r == if sample_rate < FRAMES_PER_SECOND {
            1
        } else {
            (sample_rate / FRAMES_PER_SECOND) as int
        },
        r > 0,
        sample_rate >= 50 ==> 50 * r <= sample_rate < 50 * (r + 1),
{
    let samples = sample_rate / FRAMES_PER_SECOND;
    if samples == 0 {
        1
    } else {
        samples as usize
    }
}

/// Whether more than two seconds are waiting to be played.
pub fn is_overfull(queued: usize, output_rate: u32) -> (r: bool)
    ensures
        r == (queued > 2 * output_rate),
{
    queued as u64 > 2 * (output_rate as u64)
}

// ---------------------------------------------------------------------------
// One channel out of many
// ---------------------------------------------------------------------------
/// The samples of all channels at the time `k`. At the end some channels may be
/// missing.
pub open spec fn channels_at<T>(data: Seq<T>, channels: nat, k: int) -> Seq<T> {
    let from = k * channels;
    let to = if from + channels < data.len() {
        from + channels
    } else {
        data.len() as int
    };
    data.subrange(from, to)
}

/// The number of times at which there are samples.
pub open spec fn times(length: nat, channels: nat) -> nat {
    (length + channels - 1) as nat / channels
}

/// The sum of signed samples.
pub open spec fn sum_i16(samples: Seq<i16>) -> int
    decreases samples.len(),
{
    if samples.len() == 0 {
        0
    } else {
        sum_i16(samples.drop_last()) + samples.last()
    }
}

/// The sum of unsigned samples.
pub open spec fn sum_u16(samples: Seq<u16>) -> int
    decreases samples.len(),
{
    if samples.len() == 0 {
        0
    } else {
        sum_u16(samples.drop_last()) + samples.last()
    }
}

/// `n / d`, rounded toward zero.
pub open spec fn toward_zero(n: int, d: int) -> int {
    if n < 0 {
        -((-n) / d)
    } else {
        n / d
    }
}

/// The mean of signed samples of many channels, for one channel.
pub open spec fn mono_i16(data: Seq<i16>, channels: nat) -> Seq<int> {
    Seq::new(
        times(data.len(), channels),
        |k: int| toward_zero(sum_i16(channels_at(data, channels, k)), channels as int),
    )
}

/// The mean of unsigned samples of many channels, for one channel and around
/// zero.
pub open spec fn mono_u16(data: Seq<u16>, channels: nat) -> Seq<int> {
    Seq::new(
        times(data.len(), channels),
        |k: int| sum_u16(channels_at(data, channels, k)) / channels as int - 32768,
    )
}

/// The ghost counterpart of a list of samples.
pub open spec fn samples_view(samples: Seq<i16>) -> Seq<int> {
    samples.map_values(|sample: i16| sample as int)
}

/// A mean of signed samples is a sample.
proof fn lemma_mean_i16(samples: Seq<i16>, channels: int)
    requires
        samples.len() <= channels,
        0 < channels <= 65535,
    ensures
        -32768 * samples.len() <= sum_i16(samples) <= 32767 * samples.len(),
        -32768 <= toward_zero(sum_i16(samples), channels) <= 32767,
    decreases samples.len(),
{
    if samples.len() > 0 {
        lemma_mean_i16(samples.drop_last(), channels);
    }
    let s = sum_i16(samples);
    if s < 0 {
        assert((-s) / channels <= 32768) by (nonlinear_arith)
            requires
                0 <= -s <= 32768 * channels,
                channels > 0,
        ;
        assert((-s) / channels >= 0) by (nonlinear_arith)
            requires
                0 <= -s,
                channels > 0,
        ;
    } else {
        assert(0 <= s / channels <= 32767) by (nonlinear_arith)
            requires
                0 <= s <= 32767 * channels,
                channels > 0,
        ;
    }
}

/// A mean of unsigned samples is an unsigned sample.
proof fn lemma_mean_u16(samples: Seq<u16>, channels: int)
    requires
        samples.len() <= channels,
        0 < channels <= 65535,
    ensures
        0 <= sum_u16(samples) <= 65535 * samples.len(),
        0 <= sum_u16(samples) / channels <= 65535,
    decreases samples.len(),
{
    if samples.len() > 0 {
        lemma_mean_u16(samples.drop_last(), channels);
    }
    let s = sum_u16(samples);
    assert(0 <= s / channels <= 65535) by (nonlinear_arith)
        requires
            0 <= s <= 65535 * channels,
            channels > 0,
    ;
}

/// The first time of which nothing has been read yet is `k`, if `k` times have
/// been read and something is left.
proof fn lemma_times(length: nat, channels: nat, k: nat)
    requires
        channels > 0,
    ensures
        k * channels < length ==> k < times(length, channels),
        k * channels >= length && (k == 0 || (k - 1) * channels < length) ==> k == times(
            length,
            channels,
        ),
{
    let t = times(length, channels);
    let top = (length + channels - 1) as int;
    vstd::arithmetic::div_mod::lemma_fundamental_div_mod(top, channels as int);
    assert(top == channels * t + top % (channels as int));
    assert(0 <= top % (channels as int) < channels) by (nonlinear_arith)
        requires
            channels > 0,
    ;
    if k * channels < length {
        assert(k < t) by (nonlinear_arith)
            requires
                k * channels < length,
                length + channels - 1 < channels * t + channels,
        ;
    } else if k == 0 {
        assert(length == 0);
        assert(t == 0) by (nonlinear_arith)
            requires
                channels * t <= channels - 1,
                channels > 0,
                t >= 0,
        ;
    } else if (k - 1) * channels < length {
        assert(k == t) by (nonlinear_arith)
            requires
                k * channels >= length,
                (k - 1) * channels < length,
                channels * t <= length + channels - 1,
                length + channels - 1 < channels * t + channels,
                channels > 0,
        ;
    }
}

/// Mixes signed samples of many channels into one.
pub fn mix_i16(data: &[i16], channels: u16) -> (r: Vec<i16>)
    requires
        channels > 0,
    ensures
        samples_view(r@) == mono_i16(data@, channels as nat),
{
    let width = channels as usize;
    let ghost n = channels as nat;
    let mut out: Vec<i16> = Vec::new();
    let mut i: usize = 0;
    proof {
        lemma_times(data@.len(), n, 0);
    }
    while i < data.len()
        invariant
            width == channels,
            n == channels,
            channels > 0,
            i <= data@.len(),
            out@.len() <= times(data@.len(), n),
            i < data@.len() ==> i == out@.len() * n,
            i == data@.len() ==> out@.len() == times(data@.len(), n),
            forall|k: int| 0 <= k < out@.len() ==> #[trigger] out@[k] == mono_i16(data@, n)[k],
        decreases data@.len() - i,
    {
        let ghost k = out@.len() as int;
        let end = if data.len() - i > width {
            i + width
        } else {
            data.len()
        };
        let ghost frame = channels_at(data@, n, k);
        assert(frame =~= data@.subrange(i as int, end as int));
        let mut sum: i32 = 0;
        let mut j: usize = i;
        while j < end
            invariant
                i <= j <= end <= data@.len(),
                end - i <= width,
                width == channels,
                frame == data@.subrange(i as int, end as int),
                sum == sum_i16(frame.take(j - i)),
            decreases end - j,
        {
            assert(frame.take(j + 1 - i).drop_last() =~= frame.take(j - i));
            assert(frame.take(j + 1 - i).last() == data@[j as int]);
            proof {
                lemma_mean_i16(frame.take(j + 1 - i), 65535);
            }
            sum = sum + data[j] as i32;
            j += 1;
        }
        assert(frame.take(frame.len() as int) =~= frame);
        proof {
            lemma_mean_i16(frame, channels as int);
            lemma_times(data@.len(), n, k as nat);
            lemma_times(data@.len(), n, (k + 1) as nat);
            assert((k + 1) * n == k * n + n) by (nonlinear_arith);
        }
        let mean = sum / (channels as i32);
        out.push(mean as i16);
        i = end;
    }
    assert(samples_view(out@) =~= mono_i16(data@, n));
    out
}

/// Mixes unsigned samples of many channels into one, around zero.
pub fn mix_u16(data: &[u16], channels: u16) -> (r: Vec<i16>)
    requires
        channels > 0,
    ensures
        samples_view(r@) == mono_u16(data@, channels as nat),
{
    let width = channels as usize;
    let ghost n = channels as nat;
    let mut out: Vec<i16> = Vec::new();
    let mut i: usize = 0;
    proof {
        lemma_times(data@.len(), n, 0);
    }
    while i < data.len()
        invariant
            width == channels,
            n == channels,
            channels > 0,
            i <= data@.len(),
            out@.len() <= times(data@.len(), n),
            i < data@.len() ==> i == out@.len() * n,
            i == data@.len() ==> out@.len() == times(data@.len(), n),
            forall|k: int| 0 <= k < out@.len() ==> #[trigger] out@[k] == mono_u16(data@, n)[k],
        decreases data@.len() - i,
    {
        let ghost k = out@.len() as int;
        let end = if data.len() - i > width {
            i + width
        } else {
            data.len()
        };
        let ghost frame = channels_at(data@, n, k);
        assert(frame =~= data@.subrange(i as int, end as int));
        let mut sum: u32 = 0;
        let mut j: usize = i;
        while j < end
            invariant
                i <= j <= end <= data@.len(),
                end - i <= width,
                width == channels,
                frame == data@.subrange(i as int, end as int),
                sum == sum_u16(frame.take(j - i)),
            decreases end - j,
        {
            assert(frame.take(j + 1 - i).drop_last() =~= frame.take(j - i));
            assert(frame.take(j + 1 - i).last() == data@[j as int]);
            proof {
                lemma_mean_u16(frame.take(j + 1 - i), 65535);
            }
            sum = sum + data[j] as u32;
            j += 1;
        }
        assert(frame.take(frame.len() as int) =~= frame);
        proof {
            lemma_mean_u16(frame, channels as int);
            lemma_times(data@.len(), n, k as nat);
            lemma_times(data@.len(), n, (k + 1) as nat);
            assert((k + 1) * n == k * n + n) by (nonlinear_arith);
        }
        let mean = (sum / (channels as u32)) as i32 - 32768;
        out.push(mean as i16);
        i = end;
    }
    assert(samples_view(out@) =~= mono_u16(data@, n));
    out
}

// ---------------------------------------------------------------------------
// Frames
// ---------------------------------------------------------------------------
/// All full frames in `samples`, in order.
pub open spec fn full_frames(samples: Seq<i16>, size: nat) -> Seq<Seq<i16>>
    decreases samples.len(),
{
    if size == 0 || samples.len() < size {
        seq![]
    } else {
        seq![samples.take(size as int)] + full_frames(samples.skip(size as int), size)
    }
}

/// What is left in `samples` after all full frames.
pub open spec fn left_over(samples: Seq<i16>, size: nat) -> Seq<i16>
    decreases samples.len(),
{
    if size == 0 || samples.len() < size {
        samples
    } else {
        left_over(samples.skip(size as int), size)
    }
}

/// The ghost counterpart of a list of frames.
pub open spec fn frames_view(frames: Seq<Vec<i16>>) -> Seq<Seq<i16>> {
    frames.map_values(|frame: Vec<i16>| frame@)
}

/// Adds samples to those that are waiting, and takes out all full frames.
pub fn collect_mono(samples: Vec<i16>, pending: &mut Vec<i16>, frame_samples: usize) -> (r: Vec<
    Vec<i16>,
>)
    requires
        frame_samples > 0,
    ensures
        frames_view(r@) == full_frames(old(pending)@ + samples@, frame_samples as nat),
        final(pending)@ == left_over(old(pending)@ + samples@, frame_samples as nat),
{
    let mut samples = samples;
    let ghost all = pending@ + samples@;
    pending.append(&mut samples);
    let mut frames: Vec<Vec<i16>> = Vec::new();
    assert(frames_view(frames@) =~= Seq::<Seq<i16>>::empty());
    assert(pending@ =~= all);
    assert(frames_view(frames@) + full_frames(pending@, frame_samples as nat) =~= full_frames(
        all,
        frame_samples as nat,
    ));
    while pending.len() >= frame_samples
        invariant
            frame_samples > 0,
            frames_view(frames@) + full_frames(pending@, frame_samples as nat) == full_frames(
                all,
                frame_samples as nat,
            ),
            left_over(pending@, frame_samples as nat) == left_over(all, frame_samples as nat),
        decreases pending@.len(),
    {
        let ghost before = pending@;
        let ghost done = frames@;
        let remainder = pending.split_off(frame_samples);
        let mut frame = remainder;
        std::mem::swap(pending, &mut frame);
        assert(frame@ =~= before.take(frame_samples as int));
        assert(pending@ =~= before.skip(frame_samples as int));
        frames.push(frame);
        assert(frames_view(frames@) =~= frames_view(done).push(frame@));
        assert(frames_view(frames@) + full_frames(pending@, frame_samples as nat) =~= frames_view(
            done,
        ) + full_frames(before, frame_samples as nat));
    }
    assert(frames_view(frames@) + Seq::<Seq<i16>>::empty() =~= frames_view(frames@));
    frames
}

/// All frames, one after the other.
pub open spec fn joined_frames(frames: Seq<Seq<i16>>) -> Seq<i16>
    decreases frames.len(),
{
    if frames.len() == 0 {
        seq![]
    } else {
        frames[0] + joined_frames(frames.skip(1))
    }
}

/// Cutting samples into frames loses none and changes no order: the frames and
/// what is left over are all samples. Every frame is full, and what is left
/// over is not enough for one.
pub proof fn law_framing_loses_nothing(samples: Seq<i16>, size: nat)
    requires
        size > 0,
    ensures
        joined_frames(full_frames(samples, size)) + left_over(samples, size) == samples,
        forall|k: int|
            0 <= k < full_frames(samples, size).len() ==> (#[trigger] full_frames(
                samples,
                size,
            )[k]).len() == size,
        left_over(samples, size).len() < size,
    decreases samples.len(),
{
    let frames = full_frames(samples, size);
    if samples.len() < size {
        assert(joined_frames(frames) + left_over(samples, size) =~= samples);
    } else {
        let rest = samples.skip(size as int);
        law_framing_loses_nothing(rest, size);
        assert(frames[0] == samples.take(size as int));
        assert(frames.skip(1) =~= full_frames(rest, size));
        assert(joined_frames(frames) + left_over(samples, size) =~= samples.take(size as int) + (
        joined_frames(full_frames(rest, size)) + left_over(rest, size)));
        assert(samples.take(size as int) + rest =~= samples);
        assert forall|k: int| 0 <= k < frames.len() implies (#[trigger] frames[k]).len() == size by {
            if k > 0 {
                assert(frames[k] == full_frames(rest, size)[k - 1]);
            }
        }
    }
}

/// The sum of samples is the sum of the first ones and the last.
pub proof fn law_sums_add_up(signed: Seq<i16>, unsigned: Seq<u16>, a: i16, b: u16)
    ensures
        sum_i16(Seq::empty()) == 0,
        sum_i16(signed.push(a)) == sum_i16(signed) + a,
        sum_u16(Seq::empty()) == 0,
        sum_u16(unsigned.push(b)) == sum_u16(unsigned) + b,
{
    assert(signed.push(a).drop_last() =~= signed);
    assert(unsigned.push(b).drop_last() =~= unsigned);
}

/// There is one sample for every time at which there is one in some channel, and
/// what belongs to a time are the samples of its channels, in order.
pub proof fn law_channels_are_taken_together<T>(data: Seq<T>, channels: nat, k: int, j: int)
    requires
        channels > 0,
        0 <= k < times(data.len(), channels),
    ensures
        k * channels < data.len(),
        data.len() <= times(data.len(), channels) * channels < data.len() + channels,
        channels_at(data, channels, k).len() == (if (k + 1) * channels <= data.len() {
            channels as int
        } else {
            data.len() - k * channels
        }),
        0 <= j < channels_at(data, channels, k).len() ==> channels_at(data, channels, k)[j]
            == data[k * channels + j],
{
    let t = times(data.len(), channels);
    let top = (data.len() + channels - 1) as int;
    vstd::arithmetic::div_mod::lemma_fundamental_div_mod(top, channels as int);
    assert(t * channels == channels * t) by (nonlinear_arith);
    assert(0 <= top % (channels as int) < channels);
    assert(k * channels <= (t - 1) * channels) by (nonlinear_arith)
        requires
            k <= t - 1,
            channels > 0,
    ;
    assert((t - 1) * channels == t * channels - channels) by (nonlinear_arith);
    assert((k + 1) * channels == k * channels + channels) by (nonlinear_arith);
    assert(0 <= k * channels) by (nonlinear_arith)
        requires
            0 <= k,
    ;
}

/// A mixed sample is the mean of the channels, cut off toward zero: it never goes
/// beyond the mean, and comes within one of it on the same side.
pub proof fn law_signed_samples_are_means(data: Seq<i16>, channels: nat, k: int)
    requires
        channels > 0,
        0 <= k < times(data.len(), channels),
    ensures
        mono_i16(data, channels).len() == times(data.len(), channels),
        ({
            let sum = sum_i16(channels_at(data, channels, k));
            let mean = mono_i16(data, channels)[k];
            &&& sum >= 0 ==> 0 <= sum - mean * channels < channels
            &&& sum < 0 ==> 0 <= mean * channels - sum < channels
        }),
{
    let sum = sum_i16(channels_at(data, channels, k));
    let c = channels as int;
    let mean = mono_i16(data, channels)[k];
    if sum < 0 {
        vstd::arithmetic::div_mod::lemma_fundamental_div_mod(-sum, c);
        let q = (-sum) / c;
        assert(mean == -q);
        assert(mean * channels == -(c * q)) by (nonlinear_arith)
            requires
                mean == -q,
                c == channels,
        ;
    } else {
        vstd::arithmetic::div_mod::lemma_fundamental_div_mod(sum, c);
        assert(mean * channels == c * (sum / c)) by (nonlinear_arith)
            requires
                mean == sum / c,
                c == channels,
        ;
    }
}

/// Unsigned samples are mixed to the mean of the channels, rounded down, with the
/// middle of their range at zero.
pub proof fn law_unsigned_samples_are_means(data: Seq<u16>, channels: nat, k: int)
    requires
        channels > 0,
        0 <= k < times(data.len(), channels),
    ensures
        mono_u16(data, channels).len() == times(data.len(), channels),
        0 <= sum_u16(channels_at(data, channels, k)) - (mono_u16(data, channels)[k] + 32768)
            * channels < channels,
{
    let sum = sum_u16(channels_at(data, channels, k));
    let c = channels as int;
    vstd::arithmetic::div_mod::lemma_fundamental_div_mod(sum, c);
    let mean = mono_u16(data, channels)[k];
    assert((mean + 32768) * channels == c * (sum / c)) by (nonlinear_arith)
        requires
            mean + 32768 == sum / c,
            c == channels,
    ;
}

/// What comes in one channel is kept as it is.
pub proof fn law_one_channel_is_kept(signed: Seq<i16>, unsigned: Seq<u16>, k: int)
    ensures
        mono_i16(signed, 1).len() == signed.len(),
        mono_u16(unsigned, 1).len() == unsigned.len(),
        0 <= k < signed.len() ==> mono_i16(signed, 1)[k] == signed[k],
        0 <= k < unsigned.len() ==> mono_u16(unsigned, 1)[k] == unsigned[k] - 32768,
{
    if 0 <= k < signed.len() {
        let one = channels_at(signed, 1, k);
        assert(one =~= seq![signed[k]]);
        assert(one.drop_last() =~= Seq::<i16>::empty());
        assert(sum_i16(one.drop_last()) == 0);
        assert(sum_i16(one) == signed[k]);
    }
    if 0 <= k < unsigned.len() {
        let one = channels_at(unsigned, 1, k);
        assert(one =~= seq![unsigned[k]]);
        assert(one.drop_last() =~= Seq::<u16>::empty());
        assert(sum_u16(one.drop_last()) == 0);
        assert(sum_u16(one) == unsigned[k]);
    }
}

} // verus!
