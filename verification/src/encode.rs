//! From amplitudes to a WAVE file of 16-bit integer samples.

use vstd::prelude::*;
use crate::ieee::quantize::{quantize, quantize_spec};
use crate::format::{SampleFormat, WavSpec};
use crate::wav::{parsed_spec, pcm16_file, pcm16_spec, write_pcm16};

verus! {

/// Why no file was written.
#[derive(Clone, Copy, Debug, PartialEq, Eq, Structural)]
pub enum EncodeError {
    /// The sample rate is zero, or too large for the header's byte rate.
    InvalidRate,
    /// The channel count is not one or two.
    UnsupportedChannels,
    /// More samples than the 32-bit length fields of the container hold.
    TooLong,
    /// The last frame lacks a channel.
    UnfinishedFrame,
}

/// The most samples that fit: the data and 36 bytes of header are counted in
/// a 32-bit field.
pub const MAX_SAMPLES: usize = 2147483629;

pub open spec fn quantize_all_spec(samples: Seq<u32>) -> Seq<i16> {
    Seq::new(samples.len(), |i: int| quantize_spec(samples[i]) as i16)
}

/// Why a stream of `sample_count` samples cannot be written with the given
/// rate and channel count, or `None` where it can.
pub open spec fn layout_error(sample_count: int, sample_rate: u32, channels: u16) -> Option<
    EncodeError,
> {
    if channels == 0 || channels > 2 {
        Some(EncodeError::UnsupportedChannels)
    } else if sample_rate == 0 || sample_rate * 2 * channels > u32::MAX {
        Some(EncodeError::InvalidRate)
    } else if sample_count > 2147483629 {
        Some(EncodeError::TooLong)
    } else if sample_count % (channels as int) != 0 {
        Some(EncodeError::UnfinishedFrame)
    } else {
        None
    }
}

/// The file for the given amplitudes, or the reason why there is none.
pub open spec fn encode_spec(samples: Seq<u32>, sample_rate: u32, channels: u16) -> Result<
    Seq<u8>,
    EncodeError,
> {
    match layout_error(samples.len() as int, sample_rate, channels) {
        Some(error) => Err(error),
        None => Ok(pcm16_file(quantize_all_spec(samples), sample_rate, channels)),
    }
}

/// Checks that a stream of `sample_count` samples can be written with the
/// given rate and channel count.
pub fn check_layout(sample_count: usize, sample_rate: u32, channels: u16) -> (checked: Result<
    (),
    EncodeError,
>)
    ensures
        match checked {
            Ok(_) => layout_error(sample_count as int, sample_rate, channels) is None,
            Err(error) => layout_error(sample_count as int, sample_rate, channels) == Some(error),
        },
{
    if channels == 0 || channels > 2 {
        return Err(EncodeError::UnsupportedChannels);
    }
    let highest_rate: u32 = if channels == 1 {
        2147483647
    } else {
        1073741823
    };
    proof {
        assert(sample_rate * 2 * channels == (if channels == 1 {
            2 * sample_rate
        } else {
            4 * sample_rate
        })) by (nonlinear_arith)
            requires
                channels == 1 || channels == 2,
        ;
    }
    if sample_rate == 0 || sample_rate > highest_rate {
        return Err(EncodeError::InvalidRate);
    }
    if sample_count > MAX_SAMPLES {
        return Err(EncodeError::TooLong);
    }
    if sample_count % (channels as usize) != 0 {
        return Err(EncodeError::UnfinishedFrame);
    }
    Ok(())
}

/// Turns amplitudes into 16-bit samples: each is held to the range from -1
/// to 1, multiplied by 32767 and cut off toward zero.
pub fn quantize_all(samples: &Vec<u32>) -> (quantized: Vec<i16>)
    ensures
        quantized@ == quantize_all_spec(samples@),
{
    let mut quantized: Vec<i16> = Vec::with_capacity(samples.len());
    let mut i: usize = 0;
    while i < samples.len()
        invariant
            i <= samples.len(),
            quantized.len() == i,
            forall|j: int| 0 <= j < i ==> quantized[j] == quantize_spec(samples[j]) as i16,
        decreases samples.len() - i,
    {
        quantized.push(quantize(samples[i]));
        i = i + 1;
    }
    assert(quantized@ =~= quantize_all_spec(samples@));
    quantized
}

/// Writes amplitudes as a WAVE file of 16-bit integer PCM.
///
/// The file that comes back is described, when its header is read, as 16-bit
/// integer PCM of the given rate and channel count.
pub fn create_wav_from_samples(samples: &Vec<u32>, sample_rate: u32, channels: u16) -> (file: Result<
    Vec<u8>,
    EncodeError,
>)
    ensures
        match file {
            Ok(bytes) => encode_spec(samples@, sample_rate, channels) == Ok::<Seq<u8>, EncodeError>(
                bytes@,
            ) && parsed_spec(bytes@) == Some(pcm16_spec(sample_rate, channels)),
            Err(error) => encode_spec(samples@, sample_rate, channels) == Err::<
                Seq<u8>,
                EncodeError,
            >(error),
        },
{
    match check_layout(samples.len(), sample_rate, channels) {
        Err(error) => {
            return Err(error);
        },
        Ok(_) => {},
    }
    proof {
        assert(sample_rate * 2 * channels <= u32::MAX);
    }
    let quantized = quantize_all(samples);
    let spec = WavSpec {
        channels,
        sample_rate,
        bits_per_sample: 16,
        sample_format: SampleFormat::Int,
    };
    match write_pcm16(&quantized, &spec) {
        Ok(bytes) => Ok(bytes),
        Err(_) => Err(EncodeError::UnfinishedFrame),
    }
}

} // verus!
