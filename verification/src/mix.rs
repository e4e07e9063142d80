//! Mixing interleaved channels down to one.

use vstd::prelude::*;
use crate::ieee::arithmetic::{add_spec, divide, divide_spec};
use crate::ieee::ZERO_BITS;

verus! {

/// The sum of the samples of a frame, added one after the other to zero in
/// binary32 arithmetic.
pub open spec fn frame_sum(frame: Seq<u32>) -> u32
    decreases frame.len(),
{
    if frame.len() == 0 {
        ZERO_BITS
    } else {
        add_spec(frame_sum(frame.drop_last()), frame.last())
    }
}

/// The arithmetic mean of the samples of a frame.
pub open spec fn frame_mean(frame: Seq<u32>) -> u32 {
    divide_spec(frame_sum(frame), frame.len() as int)
}

/// The frame with the given index in an interleaved buffer.
pub open spec fn frame_at(samples: Seq<u32>, channels: int, index: int) -> Seq<u32> {
    samples.subrange(index * channels, index * channels + channels)
}

/// One sample per complete frame: the mean of the frame. Samples after the
/// last complete frame are left out.
pub open spec fn mix_spec(samples: Seq<u32>, channels: int) -> Seq<u32> {
    Seq::new(
        (samples.len() as int / channels) as nat,
        |i: int| frame_mean(frame_at(samples, channels, i)),
    )
}

/// Mixes interleaved channels to mono by averaging each frame.
pub fn mix_channels_to_mono(samples: &Vec<u32>, channels: u16) -> (mono: Vec<u32>)
    requires
        channels >= 1,
    ensures
        mono@ == mix_spec(samples@, channels as int),
        mono.len() == samples.len() / (channels as usize),
{
    let width: usize = channels as usize;
    let mono_len: usize = samples.len() / width;
    let mut mono: Vec<u32> = Vec::with_capacity(mono_len);
    let mut i: usize = 0;
    proof {
        vstd::arithmetic::div_mod::lemma_fundamental_div_mod(samples.len() as int, width as int);
        vstd::arithmetic::div_mod::lemma_mod_bound(samples.len() as int, width as int);
    }
    while i < mono_len
        invariant
            i <= mono_len,
            width == channels,
            width >= 1,
            mono_len == samples.len() / width,
            width * mono_len <= samples.len(),
            mono.len() == i,
            forall|j: int| 0 <= j < i ==> mono[j] == frame_mean(frame_at(samples@, width as int, j)),
        decreases mono_len - i,
    {
        proof {
            assert(i * width + width <= width * mono_len) by (nonlinear_arith)
                requires
                    i < mono_len,
                    width >= 1,
            ;
        }
        let base: usize = i * width;
        let ghost frame = frame_at(samples@, width as int, i as int);
        let mut sum: u32 = ZERO_BITS;
        let mut ch: usize = 0;
        while ch < width
            invariant
                ch <= width,
                base + width <= samples.len(),
                frame == samples@.subrange(base as int, base + width),
                sum == frame_sum(frame.subrange(0, ch as int)),
            decreases width - ch,
        {
            proof {
                let next = frame.subrange(0, ch + 1);
                assert(next.drop_last() =~= frame.subrange(0, ch as int));
                assert(next.last() == samples[base + ch]);
            }
            sum = crate::ieee::arithmetic::add(sum, samples[base + ch]);
            ch = ch + 1;
        }
        proof {
            assert(frame.subrange(0, width as int) =~= frame);
        }
        mono.push(divide(sum, channels as u32));
        i = i + 1;
    }
    assert(mono@ =~= mix_spec(samples@, channels as int));
    mono
}

/// A buffer of two channels that hold the same two samples in every frame
/// mixes to one sample, the mean of the two, for every complete frame.
pub proof fn lemma_constant_stereo_mix(samples: Seq<u32>, a: u32, b: u32)
    requires
        forall|i: int| 0 <= i < samples.len() ==> samples[i] == (if i % 2 == 0 { a } else { b }),
    ensures
        mix_spec(samples, 2).len() == samples.len() / 2,
        forall|i: int| 0 <= i < samples.len() as int / 2 ==> #[trigger] mix_spec(samples, 2)[i]
            == divide_spec(add_spec(add_spec(ZERO_BITS, a), b), 2),
{
    assert forall|i: int| 0 <= i < samples.len() as int / 2 implies #[trigger] mix_spec(samples, 2)[i]
        == divide_spec(add_spec(add_spec(ZERO_BITS, a), b), 2) by {
        let frame = frame_at(samples, 2, i);
        assert(frame.len() == 2);
        assert(frame[0] == a);
        assert(frame[1] == b);
        assert(frame.drop_last().len() == 1);
        assert(frame.drop_last().drop_last().len() == 0);
        assert(frame.drop_last().last() == a);
        reveal_with_fuel(frame_sum, 3);
        assert(frame_sum(frame) == add_spec(add_spec(ZERO_BITS, a), b));
    }
}

/// Samples after the last complete frame do not reach the output: a buffer
/// and the same buffer with an incomplete frame behind it mix alike.
pub proof fn lemma_incomplete_frame_dropped(samples: Seq<u32>, tail: Seq<u32>, channels: int)
    requires
        channels >= 1,
        samples.len() % (channels as nat) == 0,
        tail.len() < channels,
    ensures
        mix_spec(samples + tail, channels) == mix_spec(samples, channels),
{
    let whole = samples.len() as int;
    let count = whole / channels;
    vstd::arithmetic::div_mod::lemma_fundamental_div_mod(whole, channels);
    vstd::arithmetic::div_mod::lemma_fundamental_div_mod_converse(
        whole + tail.len(),
        channels,
        count,
        tail.len() as int,
    );
    assert forall|i: int| 0 <= i < count implies frame_at(samples + tail, channels, i) == frame_at(
        samples,
        channels,
        i,
    ) by {
        assert(i * channels + channels <= count * channels) by (nonlinear_arith)
            requires
                i < count,
                channels >= 1,
        ;
        assert(i * channels >= 0) by (nonlinear_arith)
            requires
                i >= 0,
                channels >= 1,
        ;
        assert(frame_at(samples + tail, channels, i) =~= frame_at(samples, channels, i));
    }
    assert(mix_spec(samples + tail, channels) =~= mix_spec(samples, channels));
}

} // verus!
