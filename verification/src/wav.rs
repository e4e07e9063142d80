//! Reading and writing WAVE containers, which the `hound` crate does.
//!
//! The functions marked `external_body` are believed, not proved: each states
//! what the reader or writer of `hound` 3.5 does on a buffer in memory.

use vstd::prelude::*;
use crate::format::{SampleFormat, WavSpec};

verus! {

/// The error type of `hound`.
#[verifier::external_type_specification]
#[verifier::external_body]
pub struct ExHoundError(hound::Error);

/// The stream properties that `hound::WavReader::new` finds in `bytes`, or
/// `None` where it rejects the header.
pub uninterp spec fn parsed_spec(bytes: Seq<u8>) -> Option<WavSpec>;

/// The samples that `hound::WavReader::samples::<i32>` yields for `bytes`, or
/// `None` where the header is rejected or a sample cannot be read as an
/// integer.
pub uninterp spec fn parsed_samples(bytes: Seq<u8>) -> Option<Seq<i32>>;

/// The first `width` bytes of `value` in little-endian order; a negative
/// value comes out in two's complement.
pub open spec fn le_bytes(value: int, width: nat) -> Seq<u8>
    decreases width,
{
    if width == 0 {
        Seq::empty()
    } else {
        seq![(value % 256) as u8] + le_bytes(value / 256, (width - 1) as nat)
    }
}

/// The data chunk of 16-bit samples: two bytes each, low byte first.
pub open spec fn sample_bytes(samples: Seq<i16>) -> Seq<u8> {
    Seq::new(
        2 * samples.len(),
        |i: int|
            if i % 2 == 0 {
                (samples[i / 2] as int % 256) as u8
            } else {
                (samples[i / 2] as int / 256 % 256) as u8
            },
    )
}

/// A WAVE file of 16-bit integer PCM with the plain 16-byte format chunk:
/// 44 bytes of header, then the samples.
pub open spec fn pcm16_file(samples: Seq<i16>, sample_rate: u32, channels: u16) -> Seq<u8> {
    seq![0x52u8, 0x49, 0x46, 0x46] + le_bytes(36 + 2 * samples.len() as int, 4)
        + seq![0x57u8, 0x41, 0x56, 0x45]
        + seq![0x66u8, 0x6d, 0x74, 0x20] + le_bytes(16, 4) + le_bytes(1, 2)
        + le_bytes(channels as int, 2) + le_bytes(sample_rate as int, 4)
        + le_bytes(sample_rate as int * 2 * channels as int, 4) + le_bytes(2 * channels as int, 2) + le_bytes(16, 2)
        + seq![0x64u8, 0x61, 0x74, 0x61] + le_bytes(2 * samples.len() as int, 4)
        + sample_bytes(samples)
}

/// What a 16-bit integer stream of the given rate and layout is described as.
pub open spec fn pcm16_spec(sample_rate: u32, channels: u16) -> WavSpec {
    WavSpec { channels, sample_rate, bits_per_sample: 16, sample_format: SampleFormat::Int }
}

/// Whether the buffer begins as a WAVE container does: with the tag `RIFF`,
/// four bytes of length, and the tag `WAVE`.
pub open spec fn has_wave_tags(bytes: Seq<u8>) -> bool {
    &&& bytes.len() >= 12
    &&& bytes.subrange(0, 4) == seq![0x52u8, 0x49, 0x46, 0x46]
    &&& bytes.subrange(8, 12) == seq![0x57u8, 0x41, 0x56, 0x45]
}

/// Calls `hound::WavReader::new` on the buffer and `spec` on the reader.
/// Believed: the result depends on the bytes alone; the reader accepts no
/// buffer without the two tags, and no header that declares zero channels.
#[verifier::external_body]
fn read_spec(audio_data: &[u8]) -> (found: Option<WavSpec>)
    ensures
        found == parsed_spec(audio_data@),
        found matches Some(spec) ==> has_wave_tags(audio_data@) && spec.channels >= 1,
{
    let spec = hound::WavReader::new(std::io::Cursor::new(audio_data)).ok()?.spec();
    Some(WavSpec {
        channels: spec.channels,
        sample_rate: spec.sample_rate,
        bits_per_sample: spec.bits_per_sample,
        sample_format: match spec.sample_format {
            hound::SampleFormat::Float => SampleFormat::Float,
            hound::SampleFormat::Int => SampleFormat::Int,
        },
    })
}

/// Calls `hound::WavReader::new` on the buffer and collects
/// `samples::<i32>()`. Believed: the result depends on the bytes alone, and
/// the first error ends the reading.
#[verifier::external_body]
pub(crate) fn read_int_samples(audio_data: &[u8]) -> (read: Result<Vec<i32>, hound::Error>)
    ensures
        read matches Ok(samples) ==> parsed_samples(audio_data@) == Some(samples@),
        read is Err ==> parsed_samples(audio_data@) is None,
{
    let mut reader = hound::WavReader::new(std::io::Cursor::new(audio_data))?;
    reader.samples::<i32>().collect()
}

/// Writes the samples through `hound::WavWriter` (`new`, `write_sample`,
/// `finalize`) into a buffer in memory, as the 16-bit integer stream that
/// `spec` describes.
///
/// Believed: for one or two channels the writer emits the 44-byte header of
/// `pcm16_file` and two bytes per sample; writing to memory does not fail, so
/// the only error left is a last frame that lacks a channel; and the reader
/// finds in the written header the properties that were written. The
/// `requires` keeps out what the writer cannot do without overflow or
/// division by zero.
#[verifier::external_body]
pub(crate) fn write_pcm16(samples: &Vec<i16>, spec: &WavSpec) -> (written: Result<
    Vec<u8>,
    hound::Error,
>)
    requires
        spec.bits_per_sample == 16,
        spec.sample_format == SampleFormat::Int,
        spec.sample_rate >= 1,
        1 <= spec.channels <= 2,
        spec.sample_rate * 2 * spec.channels <= u32::MAX,
        2 * samples.len() + 36 <= u32::MAX,
    ensures
        written is Ok <==> samples.len() as int % spec.channels as int == 0,
        written matches Ok(bytes) ==> bytes@ == pcm16_file(
            samples@,
            spec.sample_rate,
            spec.channels,
        ) && parsed_spec(bytes@) == Some(*spec),
{
    let sample_format = match spec.sample_format {
        SampleFormat::Float => hound::SampleFormat::Float,
        SampleFormat::Int => hound::SampleFormat::Int,
    };
    let WavSpec { channels, sample_rate, bits_per_sample, .. } = *spec;
    let header = hound::WavSpec { channels, sample_rate, bits_per_sample, sample_format };
    let mut cursor = std::io::Cursor::new(Vec::new());
    let mut writer = hound::WavWriter::new(&mut cursor, header)?;
    for sample in samples.iter() {
        writer.write_sample(*sample)?;
    }
    writer.finalize()?;
    Ok(cursor.into_inner())
}

/// Reads the stream properties from the header of a WAVE container. A buffer
/// that does not parse gives `None`: that is no failure, it sends the buffer
/// to the fallback.
pub fn detect_wav_format(audio_data: &[u8]) -> (found: Option<WavSpec>)
    ensures
        found == parsed_spec(audio_data@),
        found matches Some(spec) ==> has_wave_tags(audio_data@) && spec.channels >= 1,
{
    read_spec(audio_data)
}

} // verus!
