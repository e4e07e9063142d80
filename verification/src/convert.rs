//! The conversion as a whole: which way a buffer goes, and what becomes of
//! it on the way.
//!
//! A buffer that is in the target format already is returned as it is. One
//! that is a WAVE container of a kind that is decoded goes the native way:
//! decode, mix to mono, resample, encode. Every other buffer, and every
//! buffer on which a native step fails, goes to the fallback as it came in;
//! the failure is named but not returned. Two steps are not done here:
//! reading 32-bit float samples and resampling. Where one of them is due,
//! the conversion stops with what the caller is to do, and goes on when the
//! caller hands in the result.

use vstd::prelude::*;
use crate::decode::{
    read_samples_as_f32, read_samples_spec, sample_rule_spec, DecodeError, Decoding,
};
use crate::encode::{create_wav_from_samples, encode_spec, EncodeError};
use crate::format::{whisper_spec, WavSpec, WHISPER_CHANNELS, WHISPER_SAMPLE_RATE};
use crate::mix::{mix_channels_to_mono, mix_spec};
use crate::resample::ResampleError;
use crate::wav::{detect_wav_format, has_wave_tags, parsed_spec};

verus! {

/// Why a buffer is sent to the fallback.
#[derive(Clone, Copy, Debug, PartialEq, Eq, Structural)]
pub enum FallbackReason {
    /// The buffer is no WAVE container that the reader accepts.
    Unrecognized,
    /// The samples were not decoded.
    Decode(DecodeError),
    /// The samples were not resampled.
    Resample(ResampleError),
    /// The output was not written.
    Encode(EncodeError),
}

/// A conversion that waits for the 32-bit float samples of its input.
#[derive(Debug)]
pub struct PendingSamples {
    pub audio_data: Vec<u8>,
    pub spec: WavSpec,
}

/// A conversion that waits for its mono samples to be resampled.
#[derive(Debug)]
pub struct PendingResample {
    pub audio_data: Vec<u8>,
    pub samples: Vec<u32>,
    pub from_rate: u32,
    pub to_rate: u32,
}

/// Where a conversion stands.
#[derive(Debug)]
pub enum Conversion {
    /// The output, in the target format.
    Done(Vec<u8>),
    /// The caller is to read the samples of the input as 32-bit floats and
    /// hand in their bit patterns.
    NeedsFloatSamples(PendingSamples),
    /// The caller is to resample the samples and hand in the result.
    NeedsResampling(PendingResample),
    /// The native way is closed: the caller is to run the fallback on these
    /// bytes, which are the input as it came in. What the fallback gives is
    /// the result of the conversion.
    NeedsFallback { audio_data: Vec<u8>, reason: FallbackReason },
}

/// A `Conversion` as a mathematical value.
pub enum Outcome {
    Done(Seq<u8>),
    NeedsFloatSamples(Seq<u8>, WavSpec),
    NeedsResampling(Seq<u8>, Seq<u32>, u32, u32),
    NeedsFallback(Seq<u8>, FallbackReason),
}

impl View for Conversion {
    type V = Outcome;

    open spec fn view(&self) -> Outcome {
        match self {
            Conversion::Done(bytes) => Outcome::Done(bytes@),
            Conversion::NeedsFloatSamples(pending) => Outcome::NeedsFloatSamples(
                pending.audio_data@,
                pending.spec,
            ),
            Conversion::NeedsResampling(pending) => Outcome::NeedsResampling(
                pending.audio_data@,
                pending.samples@,
                pending.from_rate,
                pending.to_rate,
            ),
            Conversion::NeedsFallback { audio_data, reason } => Outcome::NeedsFallback(
                audio_data@,
                *reason,
            ),
        }
    }
}

/// The last native step: mono samples at 16 kHz are encoded. Where that
/// fails, the input goes to the fallback.
pub open spec fn encode_outcome(audio_data: Seq<u8>, mono: Seq<u32>) -> Outcome {
    match encode_spec(mono, 16000, 1) {
        Ok(bytes) => Outcome::Done(bytes),
        Err(error) => Outcome::NeedsFallback(audio_data, FallbackReason::Encode(error)),
    }
}

/// The native way from decoded samples on: more than one channel is mixed
/// to mono; a rate other than 16 kHz is resampled; the rest is encoded.
pub open spec fn samples_outcome(audio_data: Seq<u8>, spec: WavSpec, samples: Seq<u32>) -> Outcome {
    let mono = if spec.channels > 1 {
        mix_spec(samples, spec.channels as int)
    } else {
        samples
    };
    if spec.sample_rate != 16000 {
        Outcome::NeedsResampling(audio_data, mono, spec.sample_rate, 16000)
    } else {
        encode_outcome(audio_data, mono)
    }
}

/// The native way from the start: the samples are decoded, or asked of the
/// caller where they are floats, and taken on from there. A container whose
/// samples are not decoded goes to the fallback.
pub open spec fn native_spec(audio_data: Seq<u8>, input_format: WavSpec) -> Outcome {
    match read_samples_spec(audio_data, input_format) {
        Err(error) => Outcome::NeedsFallback(audio_data, FallbackReason::Decode(error)),
        Ok(None) => Outcome::NeedsFloatSamples(audio_data, input_format),
        Ok(Some(samples)) => samples_outcome(audio_data, input_format, samples),
    }
}

/// Where the conversion of a buffer stands when it first stops.
pub open spec fn convert_spec(audio_data: Seq<u8>) -> Outcome {
    match parsed_spec(audio_data) {
        None => Outcome::NeedsFallback(audio_data, FallbackReason::Unrecognized),
        Some(spec) => if spec == whisper_spec() {
            Outcome::Done(audio_data)
        } else {
            native_spec(audio_data, spec)
        },
    }
}

/// Encodes mono samples at 16 kHz, or sends the input to the fallback.
fn encode_or_fall_back(audio_data: Vec<u8>, mono: Vec<u32>) -> (conversion: Conversion)
    ensures
        conversion@ == encode_outcome(audio_data@, mono@),
        conversion matches Conversion::Done(bytes) ==> parsed_spec(bytes@) == Some(whisper_spec()),
{
    match create_wav_from_samples(&mono, WHISPER_SAMPLE_RATE, WHISPER_CHANNELS) {
        Ok(bytes) => Conversion::Done(bytes),
        Err(error) => Conversion::NeedsFallback {
            audio_data,
            reason: FallbackReason::Encode(error),
        },
    }
}

/// Takes decoded samples through mixing, and on to resampling or encoding.
fn continue_with_samples(audio_data: Vec<u8>, spec: WavSpec, samples: Vec<u32>) -> (conversion:
    Conversion)
    ensures
        conversion@ == samples_outcome(audio_data@, spec, samples@),
        conversion matches Conversion::Done(bytes) ==> parsed_spec(bytes@) == Some(whisper_spec()),
{
    let mono = if spec.channels > 1 {
        mix_channels_to_mono(&samples, spec.channels)
    } else {
        samples
    };
    if spec.sample_rate != WHISPER_SAMPLE_RATE {
        Conversion::NeedsResampling(
            PendingResample {
                audio_data,
                samples: mono,
                from_rate: spec.sample_rate,
                to_rate: WHISPER_SAMPLE_RATE,
            },
        )
    } else {
        encode_or_fall_back(audio_data, mono)
    }
}

/// Converts audio to 16 kHz, mono, 16-bit PCM, as far as that can be done
/// without reading floats, resampling or the fallback.
///
/// An output that is returned, when its header is read, is described as the
/// target format.
pub fn convert_to_whisper_format(audio_data: Vec<u8>) -> (conversion: Conversion)
    ensures
        conversion@ == convert_spec(audio_data@),
        conversion matches Conversion::Done(bytes) ==> parsed_spec(bytes@) == Some(whisper_spec()),
        !has_wave_tags(audio_data@) ==> conversion@ == Outcome::NeedsFallback(
            audio_data@,
            FallbackReason::Unrecognized,
        ),
{
    match detect_wav_format(audio_data.as_slice()) {
        None => Conversion::NeedsFallback { audio_data, reason: FallbackReason::Unrecognized },
        Some(format) => {
            if format.is_whisper_compatible() {
                Conversion::Done(audio_data)
            } else {
                convert_wav_native(audio_data, &format)
            }
        },
    }
}

/// Converts a WAVE container whose header gave `input_format`, as far as
/// that can be done without reading floats or resampling.
pub fn convert_wav_native(audio_data: Vec<u8>, input_format: &WavSpec) -> (conversion: Conversion)
    ensures
        conversion@ == native_spec(audio_data@, *input_format),
        conversion matches Conversion::Done(bytes) ==> parsed_spec(bytes@) == Some(whisper_spec()),
{
    match read_samples_as_f32(audio_data.as_slice(), input_format) {
        Err(error) => Conversion::NeedsFallback {
            audio_data,
            reason: FallbackReason::Decode(error),
        },
        Ok(Decoding::Float32) => Conversion::NeedsFloatSamples(
            PendingSamples { audio_data, spec: *input_format },
        ),
        Ok(Decoding::Samples(samples)) => continue_with_samples(audio_data, *input_format, samples),
    }
}

impl PendingSamples {
    /// Goes on with the float samples that the caller read, given as their
    /// bit patterns, or with the reason why there are none.
    pub fn resume(self, samples: Result<Vec<u32>, DecodeError>) -> (conversion: Conversion)
        ensures
            conversion@ == (match samples {
                Err(error) => Outcome::NeedsFallback(
                    self.audio_data@,
                    FallbackReason::Decode(error),
                ),
                Ok(patterns) => samples_outcome(self.audio_data@, self.spec, patterns@),
            }),
            conversion matches Conversion::Done(bytes) ==> parsed_spec(bytes@) == Some(
                whisper_spec(),
            ),
    {
        match samples {
            Err(error) => Conversion::NeedsFallback {
                audio_data: self.audio_data,
                reason: FallbackReason::Decode(error),
            },
            Ok(patterns) => continue_with_samples(self.audio_data, self.spec, patterns),
        }
    }
}

impl PendingResample {
    /// Goes on with the resampled samples, or with the reason why there are
    /// none.
    pub fn resume(self, resampled: Result<Vec<u32>, ResampleError>) -> (conversion: Conversion)
        ensures
            conversion@ == (match resampled {
                Err(error) => Outcome::NeedsFallback(
                    self.audio_data@,
                    FallbackReason::Resample(error),
                ),
                Ok(patterns) => encode_outcome(self.audio_data@, patterns@),
            }),
            conversion matches Conversion::Done(bytes) ==> parsed_spec(bytes@) == Some(
                whisper_spec(),
            ),
    {
        match resampled {
            Err(error) => Conversion::NeedsFallback {
                audio_data: self.audio_data,
                reason: FallbackReason::Resample(error),
            },
            Ok(patterns) => encode_or_fall_back(self.audio_data, patterns),
        }
    }
}

/// A buffer in the target format is returned as it is, byte for byte.
pub proof fn lemma_target_format_passes_through(audio_data: Seq<u8>)
    requires
        parsed_spec(audio_data) == Some(whisper_spec()),
    ensures
        convert_spec(audio_data) == Outcome::Done(audio_data),
{
}

/// A buffer whose header does not parse goes straight to the fallback:
/// nothing of it is decoded.
pub proof fn lemma_unrecognised_goes_to_fallback(audio_data: Seq<u8>)
    requires
        parsed_spec(audio_data) is None,
    ensures
        convert_spec(audio_data) == Outcome::NeedsFallback(audio_data, FallbackReason::Unrecognized),
{
}

/// A container whose samples are of a kind that is not decoded never yields
/// a native output: it goes to the fallback.
pub proof fn lemma_unsupported_kind_goes_to_fallback(audio_data: Seq<u8>, spec: WavSpec)
    requires
        parsed_spec(audio_data) == Some(spec),
        sample_rule_spec(spec) is None,
    ensures
        convert_spec(audio_data) == Outcome::NeedsFallback(
            audio_data,
            FallbackReason::Decode(DecodeError::UnsupportedFormat),
        ),
{
}

/// No integer depth other than 16, 24 and 32 bits is decoded, and no float
/// depth other than 32: 8-bit PCM, for one, is not.
pub proof fn lemma_decoded_depths(spec: WavSpec)
    ensures
        sample_rule_spec(spec) is Some ==> spec.bits_per_sample == 16 || spec.bits_per_sample == 24
            || spec.bits_per_sample == 32,
        spec.bits_per_sample == 8 ==> sample_rule_spec(spec) is None,
{
}

/// Wherever a conversion stops, it holds the input as it came in: that is
/// what the fallback is given.
pub proof fn lemma_input_is_kept(audio_data: Seq<u8>)
    ensures
        convert_spec(audio_data) matches Outcome::NeedsFallback(bytes, _) ==> bytes == audio_data,
        convert_spec(audio_data) matches Outcome::NeedsFloatSamples(bytes, _) ==> bytes
            == audio_data,
        convert_spec(audio_data) matches Outcome::NeedsResampling(bytes, _, _, _) ==> bytes
            == audio_data,
{
}

} // verus!
