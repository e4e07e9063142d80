use audio_converter::convert::{
    convert_to_whisper_format, convert_wav_native, Conversion, FallbackReason, PendingResample,
    PendingSamples,
};
use audio_converter::decode::DecodeError;
use audio_converter::encode::EncodeError;
use audio_converter::resample::ResampleError;
use audio_converter::format::{SampleFormat, WavSpec};
use audio_converter::resample::{resample_audio, ResampleAction, ResampleStart};
use audio_converter::wav::detect_wav_format;

fn int_wav(channels: u16, sample_rate: u32, bits: u16, samples: &[i32]) -> Vec<u8> {
    let spec = hound::WavSpec {
        channels,
        sample_rate,
        bits_per_sample: bits,
        sample_format: hound::SampleFormat::Int,
    };
    let mut cursor = std::io::Cursor::new(Vec::new());
    {
        let mut writer = hound::WavWriter::new(&mut cursor, spec).unwrap();
        for &s in samples {
            writer.write_sample(s).unwrap();
        }
        writer.finalize().unwrap();
    }
    cursor.into_inner()
}

fn float_wav(channels: u16, sample_rate: u32, samples: &[f32]) -> Vec<u8> {
    let spec = hound::WavSpec {
        channels,
        sample_rate,
        bits_per_sample: 32,
        sample_format: hound::SampleFormat::Float,
    };
    let mut cursor = std::io::Cursor::new(Vec::new());
    {
        let mut writer = hound::WavWriter::new(&mut cursor, spec).unwrap();
        for &s in samples {
            writer.write_sample(s).unwrap();
        }
        writer.finalize().unwrap();
    }
    cursor.into_inner()
}

fn read_floats(file: &[u8]) -> Result<Vec<u32>, DecodeError> {
    let mut reader = hound::WavReader::new(std::io::Cursor::new(file))
        .map_err(|_| DecodeError::Unreadable)?;
    let samples: Result<Vec<f32>, hound::Error> = reader.samples::<f32>().collect();
    match samples {
        Ok(values) => Ok(values.iter().map(|x| x.to_bits()).collect()),
        Err(_) => Err(DecodeError::Unreadable),
    }
}

fn read_back(file: &[u8]) -> Vec<i16> {
    let mut reader = hound::WavReader::new(std::io::Cursor::new(file)).unwrap();
    reader.samples::<i16>().map(|s| s.unwrap()).collect()
}

fn to_i16(x: f32) -> i32 {
    ((x.clamp(-1.0, 1.0) * i16::MAX as f32) as i16) as i32
}

fn run_engine(start: ResampleStart) -> Result<Vec<u32>, ResampleError> {
    match start {
        ResampleStart::Unchanged(samples) => Ok(samples),
        ResampleStart::Engine { from_rate, to_rate, chunk_size, channels, job } => {
            let mut engine =
                rubato::FftFixedInOut::<f32>::new(from_rate, to_rate, chunk_size, channels)
                    .map_err(|_| ResampleError::Construction)?;
            let mut job = job;
            loop {
                match job.next_action() {
                    ResampleAction::Process(chunk) => {
                        let input: Vec<Vec<f32>> =
                            vec![chunk.iter().map(|b| f32::from_bits(*b)).collect()];
                        let out = rubato::Resampler::process(&mut engine, &input, None)
                            .map_err(|_| ResampleError::Processing)?;
                        job = job.accept(out[0].iter().map(|x| x.to_bits()).collect());
                    }
                    ResampleAction::Drain => {
                        let out = rubato::Resampler::process_partial::<Vec<f32>>(
                            &mut engine,
                            None,
                            None,
                        )
                        .map_err(|_| ResampleError::Draining)?;
                        return Ok(job.finish(out[0].iter().map(|x| x.to_bits()).collect()));
                    }
                }
            }
        }
    }
}

fn target() -> WavSpec {
    WavSpec { channels: 1, sample_rate: 16000, bits_per_sample: 16, sample_format: SampleFormat::Int }
}

fn sine(n: usize, rate: f32) -> Vec<i32> {
    (0..n)
        .map(|i| ((2.0 * std::f32::consts::PI * 440.0 * i as f32 / rate).sin() * 30000.0) as i32)
        .collect()
}

#[test]
fn a_file_in_the_target_format_comes_back_unchanged() {
    let file = int_wav(1, 16000, 16, &[1, -2, 3, -4, 32767, -32768]);
    match convert_to_whisper_format(file.clone()) {
        Conversion::Done(bytes) => assert_eq!(bytes, file),
        other => panic!("{:?}", other),
    }
}

#[test]
fn trailing_bytes_of_a_target_file_are_kept() {
    let mut file = int_wav(1, 16000, 16, &[1, -2, 3]);
    file.extend_from_slice(b"LIST\x04\x00\x00\x00abcd");
    match convert_to_whisper_format(file.clone()) {
        Conversion::Done(bytes) => assert_eq!(bytes, file),
        other => panic!("{:?}", other),
    }
}

#[test]
fn a_converted_file_converts_to_itself() {
    let file = int_wav(2, 16000, 24, &[100000, -200000, 8388607, 8388607, -8388608, 0]);
    let once = match convert_to_whisper_format(file) {
        Conversion::Done(bytes) => bytes,
        other => panic!("{:?}", other),
    };
    match convert_to_whisper_format(once.clone()) {
        Conversion::Done(bytes) => assert_eq!(bytes, once),
        other => panic!("{:?}", other),
    }
}

#[test]
fn bytes_that_are_no_container_go_to_the_fallback() {
    let inputs: Vec<Vec<u8>> = vec![
        Vec::new(),
        b"OggS\x00\x02\x00\x00\x00\x00\x00\x00\x00\x00".to_vec(),
        b"RIFF\x00\x00\x00\x00WAVEjunk".to_vec(),
        vec![0xFF; 4096],
    ];
    for input in inputs {
        assert_eq!(detect_wav_format(&input), None);
        match convert_to_whisper_format(input.clone()) {
            Conversion::NeedsFallback { audio_data, reason } => {
                assert_eq!(audio_data, input);
                assert_eq!(reason, FallbackReason::Unrecognized);
            }
            other => panic!("{:?}", other),
        }
    }
}

#[test]
fn eight_bit_pcm_goes_to_the_fallback() {
    for (channels, rate) in [(1u16, 16000u32), (2, 16000), (1, 8000), (2, 44100)] {
        let file = int_wav(channels, rate, 8, &[1, -2, 3, -4]);
        match convert_to_whisper_format(file.clone()) {
            Conversion::NeedsFallback { audio_data, reason } => {
                assert_eq!(audio_data, file);
                assert_eq!(reason, FallbackReason::Decode(DecodeError::UnsupportedFormat));
            }
            other => panic!("{:?}", other),
        }
    }
}

#[test]
fn a_short_data_chunk_goes_to_the_fallback() {
    let mut file = int_wav(1, 16000, 24, &[1, 2, 3, 4]);
    file.truncate(file.len() - 1);
    match convert_to_whisper_format(file.clone()) {
        Conversion::NeedsFallback { audio_data, reason } => {
            assert_eq!(audio_data, file);
            assert_eq!(reason, FallbackReason::Decode(DecodeError::Unreadable));
        }
        other => panic!("{:?}", other),
    }
}

#[test]
fn stereo_at_16_khz_is_mixed_and_encoded() {
    let raw = [1000, 3000, -32768, -32768, 32767, 32767, 20000, -20000, 5, 6, -7, 8];
    let file = int_wav(2, 16000, 16, &raw);
    let mut expected = Vec::new();
    for frame in raw.chunks(2) {
        let l = frame[0] as i16 as f32 / i16::MAX as f32;
        let r = frame[1] as i16 as f32 / i16::MAX as f32;
        expected.push(to_i16((0.0f32 + l + r) / 2.0));
    }
    match convert_to_whisper_format(file) {
        Conversion::Done(bytes) => {
            assert_eq!(detect_wav_format(&bytes), Some(target()));
            assert_eq!(bytes, int_wav(1, 16000, 16, &expected));
            assert_eq!(expected, vec![2000, -32767, 32767, 0, 5, 0]);
        }
        other => panic!("{:?}", other),
    }
}

#[test]
fn deeper_samples_at_16_khz_are_requantised() {
    let raw24 = [0, 8388607, -8388608, 4194304, -4194304, 256, 255, -256, 1234567];
    let expected24: Vec<i32> = raw24.iter().map(|&s| to_i16(s as f32 / 0x7FFFFF as f32)).collect();
    match convert_to_whisper_format(int_wav(1, 16000, 24, &raw24)) {
        Conversion::Done(bytes) => {
            assert_eq!(detect_wav_format(&bytes), Some(target()));
            assert_eq!(bytes, int_wav(1, 16000, 16, &expected24));
            assert_eq!(expected24, vec![0, 32767, -32767, 16383, -16383, 0, 0, 0, 4822]);
        }
        other => panic!("{:?}", other),
    }
    let raw32 = [0, i32::MAX, i32::MIN, 1 << 30, -(1 << 30), 65536, 65535, -65536];
    let expected32: Vec<i32> = raw32.iter().map(|&s| to_i16(s as f32 / i32::MAX as f32)).collect();
    match convert_to_whisper_format(int_wav(1, 16000, 32, &raw32)) {
        Conversion::Done(bytes) => {
            assert_eq!(bytes, int_wav(1, 16000, 16, &expected32));
            assert_eq!(expected32, vec![0, 32767, -32767, 16383, -16383, 0, 0, 0]);
        }
        other => panic!("{:?}", other),
    }
}

#[test]
fn another_rate_stops_for_resampling() {
    let raw = [0, 32767, -32767, 100];
    let file = int_wav(1, 8000, 16, &raw);
    let pending = match convert_to_whisper_format(file.clone()) {
        Conversion::NeedsResampling(pending) => pending,
        other => panic!("{:?}", other),
    };
    assert_eq!(pending.audio_data, file);
    assert_eq!(pending.from_rate, 8000);
    assert_eq!(pending.to_rate, 16000);
    let expected: Vec<u32> = raw.iter().map(|&s| (s as f32 / 32767.0).to_bits()).collect();
    assert_eq!(pending.samples, expected);
    let resampled: Vec<u32> = [0.0f32, 0.5, 1.0, 0.0, -1.0, -0.5, 0.0, 0.01]
        .iter()
        .map(|x| x.to_bits())
        .collect();
    match pending.resume(Ok(resampled)) {
        Conversion::Done(bytes) => {
            assert_eq!(detect_wav_format(&bytes), Some(target()));
            assert_eq!(read_back(&bytes), vec![0, 16383, 32767, 0, -32767, -16383, 0, 327]);
        }
        other => panic!("{:?}", other),
    }
}

#[test]
fn stereo_at_another_rate_is_mixed_before_it_is_resampled() {
    let raw = [32767, 0, 0, -32767, 16384, 16384];
    let file = int_wav(2, 48000, 16, &raw);
    match convert_to_whisper_format(file) {
        Conversion::NeedsResampling(pending) => {
            assert_eq!(pending.from_rate, 48000);
            assert_eq!(pending.to_rate, 16000);
            let half = ((0.0f32 + 1.0 + 0.0) / 2.0).to_bits();
            let neg = ((0.0f32 + 0.0 - 1.0) / 2.0).to_bits();
            let x = 16384.0f32 / 32767.0;
            assert_eq!(pending.samples, vec![half, neg, ((0.0f32 + x + x) / 2.0).to_bits()]);
        }
        other => panic!("{:?}", other),
    }
}

#[test]
fn a_failed_resampling_goes_to_the_fallback() {
    let file = int_wav(1, 8000, 16, &[1, 2, 3]);
    let pending = match convert_to_whisper_format(file.clone()) {
        Conversion::NeedsResampling(pending) => pending,
        other => panic!("{:?}", other),
    };
    match pending.resume(Err(ResampleError::Processing)) {
        Conversion::NeedsFallback { audio_data, reason } => {
            assert_eq!(audio_data, file);
            assert_eq!(reason, FallbackReason::Resample(ResampleError::Processing));
        }
        other => panic!("{:?}", other),
    }
}

#[test]
fn float_samples_are_asked_of_the_caller() {
    let values = [0.0f32, 0.5, -0.5, -1.0, -1.0, 1.5, 0.25, -0.125];
    let file = float_wav(2, 16000, &values);
    let pending = match convert_to_whisper_format(file.clone()) {
        Conversion::NeedsFloatSamples(pending) => pending,
        other => panic!("{:?}", other),
    };
    assert_eq!(pending.audio_data, file);
    assert_eq!(
        pending.spec,
        WavSpec { channels: 2, sample_rate: 16000, bits_per_sample: 32, sample_format: SampleFormat::Float }
    );
    let samples = read_floats(&pending.audio_data);
    match pending.resume(samples) {
        Conversion::Done(bytes) => {
            assert_eq!(detect_wav_format(&bytes), Some(target()));
            let expected: Vec<i16> = values
                .chunks(2)
                .map(|frame| to_i16((0.0f32 + frame[0] + frame[1]) / 2.0) as i16)
                .collect();
            assert_eq!(read_back(&bytes), expected);
            assert_eq!(expected, vec![8191, -24575, 8191, 2047]);
        }
        other => panic!("{:?}", other),
    }
}

#[test]
fn float_samples_at_another_rate_go_on_to_resampling() {
    let file = float_wav(1, 32000, &[0.5, -0.5]);
    let pending = match convert_to_whisper_format(file.clone()) {
        Conversion::NeedsFloatSamples(pending) => pending,
        other => panic!("{:?}", other),
    };
    let samples = read_floats(&file);
    match pending.resume(samples) {
        Conversion::NeedsResampling(next) => {
            assert_eq!(next.samples, vec![0.5f32.to_bits(), (-0.5f32).to_bits()]);
            assert_eq!(next.from_rate, 32000);
            assert_eq!(next.to_rate, 16000);
            assert_eq!(next.audio_data, file);
        }
        other => panic!("{:?}", other),
    }
}

#[test]
fn unread_float_samples_go_to_the_fallback() {
    let file = float_wav(1, 16000, &[0.5, -0.5]);
    let pending = match convert_to_whisper_format(file.clone()) {
        Conversion::NeedsFloatSamples(pending) => pending,
        other => panic!("{:?}", other),
    };
    match pending.resume(Err(DecodeError::Unreadable)) {
        Conversion::NeedsFallback { audio_data, reason } => {
            assert_eq!(audio_data, file);
            assert_eq!(reason, FallbackReason::Decode(DecodeError::Unreadable));
        }
        other => panic!("{:?}", other),
    }
}

#[test]
fn any_number_of_mono_samples_is_written() {
    let pending = PendingSamples {
        audio_data: vec![7, 8, 9],
        spec: WavSpec { channels: 1, sample_rate: 16000, bits_per_sample: 32, sample_format: SampleFormat::Float },
    };
    match pending.resume(Ok(vec![0; 5])) {
        Conversion::Done(bytes) => assert_eq!(bytes.len(), 44 + 10),
        other => panic!("{:?}", other),
    }
    // only a buffer beyond the reach of the container's length fields is
    // refused
    assert_eq!(
        audio_converter::encode::check_layout(2147483630, 16000, 1),
        Err(EncodeError::TooLong)
    );
}

#[test]
fn the_native_way_can_be_entered_with_a_known_format() {
    let file = int_wav(2, 16000, 16, &[32767, 32767, 0, 0]);
    let format = detect_wav_format(&file).unwrap();
    match convert_wav_native(file.clone(), &format) {
        Conversion::Done(bytes) => assert_eq!(read_back(&bytes), vec![32767, 0]),
        other => panic!("{:?}", other),
    }
    let wrong = WavSpec { channels: 1, sample_rate: 16000, bits_per_sample: 12, sample_format: SampleFormat::Int };
    match convert_wav_native(file.clone(), &wrong) {
        Conversion::NeedsFallback { audio_data, reason } => {
            assert_eq!(audio_data, file);
            assert_eq!(reason, FallbackReason::Decode(DecodeError::UnsupportedFormat));
        }
        other => panic!("{:?}", other),
    }
}

#[test]
fn a_pending_conversion_can_be_written_by_hand() {
    let pending = PendingResample {
        audio_data: vec![1, 2, 3],
        samples: Vec::new(),
        from_rate: 8000,
        to_rate: 16000,
    };
    match pending.resume(Ok(Vec::new())) {
        Conversion::Done(bytes) => {
            assert_eq!(bytes.len(), 44);
            assert_eq!(detect_wav_format(&bytes), Some(target()));
        }
        other => panic!("{:?}", other),
    }
    let pending = PendingSamples {
        audio_data: vec![1, 2, 3],
        spec: WavSpec { channels: 1, sample_rate: 16000, bits_per_sample: 32, sample_format: SampleFormat::Float },
    };
    match pending.resume(Ok(vec![0x3F80_0000])) {
        Conversion::Done(bytes) => assert_eq!(read_back(&bytes), vec![32767]),
        other => panic!("{:?}", other),
    }
}

#[test]
fn one_second_at_8_khz_becomes_16_khz_mono() {
    let raw = sine(8000, 8000.0);
    let file = int_wav(1, 8000, 16, &raw);
    let pending = match convert_to_whisper_format(file) {
        Conversion::NeedsResampling(pending) => pending,
        other => panic!("{:?}", other),
    };
    assert_eq!(pending.samples.len(), 8000);
    let start = resample_audio(pending.samples.clone(), pending.from_rate, pending.to_rate);
    let resampled = run_engine(start).unwrap();
    // eight blocks of 1024 samples and the drained tail, doubled in rate
    assert_eq!(resampled.len(), 9 * 2048);
    assert!(resampled.len() >= 16000 - 32);
    match pending.resume(Ok(resampled.clone())) {
        Conversion::Done(bytes) => {
            assert_eq!(detect_wav_format(&bytes), Some(target()));
            let samples = read_back(&bytes);
            assert_eq!(samples.len(), resampled.len());
            assert_eq!(bytes.len(), 44 + 2 * resampled.len());
            assert!(samples.iter().any(|s| s.abs() > 20000));
        }
        other => panic!("{:?}", other),
    }
}

#[test]
fn stereo_at_44100_hz_is_mixed_and_offered_for_resampling() {
    let n = 44100;
    let raw = sine(n, 44100.0);
    let file = int_wav(2, 44100, 16, &raw);
    let pending = match convert_to_whisper_format(file.clone()) {
        Conversion::NeedsResampling(pending) => pending,
        other => panic!("{:?}", other),
    };
    assert_eq!(pending.samples.len(), n / 2);
    assert_eq!(pending.from_rate, 44100);
    assert_eq!(pending.to_rate, 16000);
    for (i, frame) in raw.chunks(2).enumerate() {
        let l = frame[0] as f32 / 32767.0;
        let r = frame[1] as f32 / 32767.0;
        assert_eq!(pending.samples[i], ((0.0f32 + l + r) / 2.0).to_bits());
    }
    // For this pair of rates the engine works on blocks of 1323 samples and
    // refuses blocks of 1024, so the input is left to the fallback.
    let start = resample_audio(pending.samples.clone(), pending.from_rate, pending.to_rate);
    let resampled = run_engine(start);
    assert_eq!(resampled, Err(ResampleError::Processing));
    match pending.resume(resampled) {
        Conversion::NeedsFallback { audio_data, reason } => {
            assert_eq!(reason, FallbackReason::Resample(ResampleError::Processing));
            assert_eq!(audio_data, file);
        }
        other => panic!("{:?}", other),
    }
}

#[test]
fn stereo_at_32_khz_is_mixed_and_resampled() {
    let n = 6400;
    let raw = sine(n, 32000.0);
    let file = int_wav(2, 32000, 16, &raw);
    let pending = match convert_to_whisper_format(file) {
        Conversion::NeedsResampling(pending) => pending,
        other => panic!("{:?}", other),
    };
    assert_eq!(pending.samples.len(), n / 2);
    let start = resample_audio(pending.samples.clone(), pending.from_rate, pending.to_rate);
    let resampled = run_engine(start).unwrap();
    // four blocks of 1024 samples and the drained tail, halved in rate
    assert_eq!(resampled.len(), 5 * 512);
    assert!(resampled.len() >= (n / 2) * 16000 / 32000);
    match pending.resume(Ok(resampled.clone())) {
        Conversion::Done(bytes) => {
            assert_eq!(detect_wav_format(&bytes), Some(target()));
            assert_eq!(bytes.len(), 44 + 2 * resampled.len());
        }
        other => panic!("{:?}", other),
    }
}

#[test]
fn a_rate_of_zero_gets_no_engine() {
    let start = resample_audio(vec![0, 0, 0], 0, 16000);
    assert_eq!(run_engine(start), Err(ResampleError::Construction));
}

#[test]
fn every_output_is_in_the_target_format() {
    let inputs = vec![
        int_wav(1, 16000, 16, &[1, 2, 3]),
        int_wav(2, 16000, 16, &[1, 2, 3, 4]),
        int_wav(1, 16000, 24, &[1, 2, 3]),
        int_wav(2, 16000, 32, &[1, 2, 3, 4]),
        int_wav(1, 16000, 16, &[]),
        int_wav(2, 16000, 24, &[]),
    ];
    for input in inputs {
        match convert_to_whisper_format(input) {
            Conversion::Done(bytes) => assert_eq!(detect_wav_format(&bytes), Some(target())),
            other => panic!("{:?}", other),
        }
    }
}
