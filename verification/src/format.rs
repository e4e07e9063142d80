//! The description of a WAVE stream and the format that the recogniser takes.

use vstd::prelude::*;

verus! {

/// How a sample is stored: as an IEEE float or as an integer.
#[derive(Clone, Copy, Debug, PartialEq, Eq, Structural)]
pub enum SampleFormat {
    Float,
    Int,
}

/// The properties of a WAVE stream, as its header gives them.
#[derive(Clone, Copy, Debug, PartialEq, Eq, Structural)]
pub struct WavSpec {
    pub channels: u16,
    pub sample_rate: u32,
    pub bits_per_sample: u16,
    pub sample_format: SampleFormat,
}

/// The sample rate of the target format, in Hz.
pub const WHISPER_SAMPLE_RATE: u32 = 16000;

/// The channel count of the target format.
pub const WHISPER_CHANNELS: u16 = 1;

/// The bit depth of the target format.
pub const WHISPER_BITS_PER_SAMPLE: u16 = 16;

/// The target format: 16 kHz, mono, 16-bit integer samples.
pub open spec fn whisper_spec() -> WavSpec {
    WavSpec { channels: 1, sample_rate: 16000, bits_per_sample: 16, sample_format: SampleFormat::Int }
}

/// Which steps a stream needs to reach the target format.
#[derive(Clone, Copy, Debug, PartialEq, Eq, Structural)]
pub struct ConversionPlan {
    pub needs_resampling: bool,
    pub needs_channel_mixing: bool,
    pub needs_bit_depth_conversion: bool,
}

impl WavSpec {
    /// The target format as a value.
    pub fn whisper() -> (spec: WavSpec)
        ensures
            spec == whisper_spec(),
    {
        WavSpec {
            channels: WHISPER_CHANNELS,
            sample_rate: WHISPER_SAMPLE_RATE,
            bits_per_sample: WHISPER_BITS_PER_SAMPLE,
            sample_format: SampleFormat::Int,
        }
    }

    /// Whether the stream is in the target format already.
    pub fn is_whisper_compatible(&self) -> (compatible: bool)
        ensures
            compatible == (*self == whisper_spec()),
    {
        self.sample_rate == WHISPER_SAMPLE_RATE && self.channels == WHISPER_CHANNELS
            && self.bits_per_sample == WHISPER_BITS_PER_SAMPLE && matches!(
            self.sample_format,
            SampleFormat::Int
        )
    }

    pub open spec fn plan_spec(self) -> ConversionPlan {
        ConversionPlan {
            needs_resampling: self.sample_rate != 16000,
            needs_channel_mixing: self.channels != 1,
            needs_bit_depth_conversion: self.bits_per_sample != 16 || self.sample_format
                != SampleFormat::Int,
        }
    }

    /// The steps that this stream needs.
    pub fn plan(&self) -> (plan: ConversionPlan)
        ensures
            plan == self.plan_spec(),
    {
        ConversionPlan {
            needs_resampling: self.sample_rate != WHISPER_SAMPLE_RATE,
            needs_channel_mixing: self.channels != WHISPER_CHANNELS,
            needs_bit_depth_conversion: self.bits_per_sample != WHISPER_BITS_PER_SAMPLE || !matches!(
                self.sample_format,
                SampleFormat::Int
            ),
        }
    }
}

impl ConversionPlan {
    pub open spec fn is_empty_spec(self) -> bool {
        !self.needs_resampling && !self.needs_channel_mixing && !self.needs_bit_depth_conversion
    }

    /// Whether no step is needed.
    pub fn is_empty(&self) -> (empty: bool)
        ensures
            empty == self.is_empty_spec(),
    {
        !self.needs_resampling && !self.needs_channel_mixing && !self.needs_bit_depth_conversion
    }
}

/// A stream needs no step exactly when it is in the target format.
pub proof fn lemma_plan_empty_iff_compatible(spec: WavSpec)
    ensures
        spec.plan_spec().is_empty_spec() <==> spec == whisper_spec(),
{
}

} // verus!
