//! From the samples of a container to amplitudes between -1 and 1.
//!
//! Amplitudes are binary32 values, carried as their bit patterns (see
//! `ieee`). An integer sample is converted to binary32 and divided by the
//! full scale of its bit depth, both in binary32 arithmetic.

use vstd::prelude::*;
use vstd::arithmetic::power2::{pow2, lemma_pow2_adds, lemma2_to64};
use crate::format::{SampleFormat, WavSpec};
use crate::ieee::arithmetic::{
    divide, divide_spec, from_int, from_int_spec, lemma_small_integers_are_exact,
};
use crate::ieee::rounding::{lemma_round_at, round_magnitude};
use crate::ieee::{saturate, units, with_sign};
use crate::wav::{parsed_samples, read_int_samples};

verus! {

/// Why the samples of a stream were not decoded.
#[derive(Clone, Copy, Debug, PartialEq, Eq, Structural)]
pub enum DecodeError {
    /// The combination of sample format and bit depth is not one of the four
    /// that are decoded.
    UnsupportedFormat,
    /// The container did not yield its samples.
    Unreadable,
}

/// The four kinds of sample that are decoded.
#[derive(Clone, Copy, Debug, PartialEq, Eq, Structural)]
pub enum SampleRule {
    /// 32-bit floats, taken as they are.
    Float32,
    /// 16-bit integers, divided by 32767.
    Int16,
    /// 24-bit integers, divided by 8388607.
    Int24,
    /// 32-bit integers, divided by 2147483647 as binary32 holds it.
    Int32,
}

/// The full scale of 16-bit samples.
pub const FULL_SCALE_16: u32 = 32767;

/// The full scale of 24-bit samples.
pub const FULL_SCALE_24: u32 = 8388607;

/// The full scale of 32-bit samples as a binary32 value: 2147483647 lies
/// between two binary32 values and rounds to 2^31.
pub const FULL_SCALE_32: u32 = 2147483648;

pub open spec fn sample_rule_spec(spec: WavSpec) -> Option<SampleRule> {
    match spec.sample_format {
        SampleFormat::Float => if spec.bits_per_sample == 32 {
            Some(SampleRule::Float32)
        } else {
            None
        },
        SampleFormat::Int => if spec.bits_per_sample == 16 {
            Some(SampleRule::Int16)
        } else if spec.bits_per_sample == 24 {
            Some(SampleRule::Int24)
        } else if spec.bits_per_sample == 32 {
            Some(SampleRule::Int32)
        } else {
            None
        },
    }
}

/// The rule for the samples of a stream, or `None` where the stream is of a
/// kind that is not decoded.
pub fn sample_rule(spec: &WavSpec) -> (rule: Option<SampleRule>)
    ensures
        rule == sample_rule_spec(*spec),
{
    match spec.sample_format {
        SampleFormat::Float => if spec.bits_per_sample == 32 {
            Some(SampleRule::Float32)
        } else {
            None
        },
        SampleFormat::Int => if spec.bits_per_sample == 16 {
            Some(SampleRule::Int16)
        } else if spec.bits_per_sample == 24 {
            Some(SampleRule::Int24)
        } else if spec.bits_per_sample == 32 {
            Some(SampleRule::Int32)
        } else {
            None
        },
    }
}

impl SampleRule {
    /// The number by which an integer sample is divided; 1 for floats.
    pub open spec fn divisor_spec(self) -> int {
        match self {
            SampleRule::Float32 => 1,
            SampleRule::Int16 => 32767,
            SampleRule::Int24 => 8388607,
            SampleRule::Int32 => 2147483648,
        }
    }

    pub fn divisor(&self) -> (divisor: u32)
        ensures
            divisor as int == self.divisor_spec(),
            divisor >= 1,
    {
        match self {
            SampleRule::Float32 => 1,
            SampleRule::Int16 => FULL_SCALE_16,
            SampleRule::Int24 => FULL_SCALE_24,
            SampleRule::Int32 => FULL_SCALE_32,
        }
    }
}

/// The largest 32-bit sample converts to the binary32 value 2^31, which is
/// the divisor of `SampleRule::Int32`.
pub proof fn lemma_full_scale_32()
    ensures
        from_int_spec(2147483647) == 0x4F00_0000u32,
        units(0x4F00_0000) == 2147483648 * pow2(149),
{
    lemma2_to64();
    assert(2147483647 == 0xFF_FFFF * pow2(7) + 127);
    lemma_round_at(2147483647, 149, 7, 0xFF_FFFF, 127);
    assert(round_magnitude(2147483647int * pow2(149), 1) == 0x4F00_0000);
    lemma_pow2_adds(8, 149);
    assert(units(0x4F00_0000) == 0x80_0000 * pow2(157));
    assert(0x80_0000 * pow2(157) == 2147483648 * pow2(149)) by (nonlinear_arith)
        requires
            pow2(157) == 0x100 * pow2(149),
    ;
}

/// The amplitude of an integer sample: the sample as a binary32 value,
/// divided by the full scale.
pub open spec fn normalize_spec(raw: int, divisor: int) -> u32 {
    divide_spec(from_int_spec(raw), divisor)
}

/// For a sample of at most 24 bits, the amplitude is the binary32 value
/// nearest to the exact quotient of the sample and the full scale: the
/// conversion of the sample adds no error of its own.
pub proof fn lemma_normalize_rounds_once(raw: int, divisor: int)
    requires
        -0x100_0000 < raw < 0x100_0000,
        divisor >= 1,
    ensures
        normalize_spec(raw, divisor) == with_sign(
            raw < 0,
            saturate(round_magnitude((if raw < 0 {
                -raw
            } else {
                raw
            }) * pow2(149), divisor)),
        ),
{
    lemma_small_integers_are_exact(raw);
}

pub open spec fn normalize_all_spec(raw: Seq<i32>, divisor: int) -> Seq<u32> {
    Seq::new(raw.len(), |i: int| normalize_spec(raw[i] as int, divisor))
}

/// Turns integer samples into amplitudes.
pub fn normalize(raw: &Vec<i32>, divisor: u32) -> (amplitudes: Vec<u32>)
    requires
        divisor >= 1,
    ensures
        amplitudes@ == normalize_all_spec(raw@, divisor as int),
{
    let mut amplitudes: Vec<u32> = Vec::with_capacity(raw.len());
    let mut i: usize = 0;
    while i < raw.len()
        invariant
            i <= raw.len(),
            divisor >= 1,
            amplitudes.len() == i,
            forall|j: int| 0 <= j < i ==> amplitudes[j] == normalize_spec(raw[j] as int, divisor as int),
        decreases raw.len() - i,
    {
        amplitudes.push(divide(from_int(raw[i]), divisor));
        i = i + 1;
    }
    assert(amplitudes@ =~= normalize_all_spec(raw@, divisor as int));
    amplitudes
}

/// What decoding a container gives: the amplitudes, or the finding that the
/// samples are 32-bit floats, which the caller reads and hands in as their
/// bit patterns.
#[derive(Debug)]
pub enum Decoding {
    Samples(Vec<u32>),
    Float32,
}

pub open spec fn read_samples_spec(bytes: Seq<u8>, spec: WavSpec) -> Result<Option<Seq<u32>>, DecodeError> {
    match sample_rule_spec(spec) {
        None => Err(DecodeError::UnsupportedFormat),
        Some(SampleRule::Float32) => Ok(None),
        Some(rule) => match parsed_samples(bytes) {
            None => Err(DecodeError::Unreadable),
            Some(raw) => Ok(Some(normalize_all_spec(raw, rule.divisor_spec()))),
        },
    }
}

impl Decoding {
    pub open spec fn view(self) -> Option<Seq<u32>> {
        match self {
            Decoding::Samples(samples) => Some(samples@),
            Decoding::Float32 => None,
        }
    }
}

/// Decodes the samples of a container whose header gave `spec`.
///
/// Integer samples of 16, 24 and 32 bits are read and normalised. For 32-bit
/// floats the answer is `Decoding::Float32`. Every other kind is refused.
pub fn read_samples_as_f32(audio_data: &[u8], spec: &WavSpec) -> (decoded: Result<Decoding, DecodeError>)
    ensures
        match decoded {
            Ok(decoding) => read_samples_spec(audio_data@, *spec) == Ok::<
                Option<Seq<u32>>,
                DecodeError,
            >(decoding.view()),
            Err(error) => read_samples_spec(audio_data@, *spec) == Err::<
                Option<Seq<u32>>,
                DecodeError,
            >(error),
        },
{
    match sample_rule(spec) {
        None => Err(DecodeError::UnsupportedFormat),
        Some(SampleRule::Float32) => Ok(Decoding::Float32),
        Some(rule) => match read_int_samples(audio_data) {
            Err(_) => Err(DecodeError::Unreadable),
            Ok(raw) => Ok(Decoding::Samples(normalize(&raw, rule.divisor()))),
        },
    }
}

} // verus!
