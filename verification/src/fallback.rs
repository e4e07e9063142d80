//! The fallback: an external transcoder, run by the caller on the bytes as
//! they came in. This module holds what is fixed about that run: the
//! arguments, and how each way of failing is reported.

use vstd::prelude::*;
use vstd::string::StringExecFns;

verus! {

/// The error that a conversion ends with when the fallback fails too.
#[derive(Debug)]
pub enum TranscriptionError {
    AudioReadError { message: String },
}

impl TranscriptionError {
    pub open spec fn message_spec(self) -> Seq<char> {
        match self {
            TranscriptionError::AudioReadError { message } => message@,
        }
    }

    /// The text of the error.
    pub fn message(&self) -> (text: &String)
        ensures
            text@ == self.message_spec(),
    {
        match self {
            TranscriptionError::AudioReadError { message } => message,
        }
    }
}

/// The ways in which the fallback fails.
#[derive(Clone, Copy, Debug, PartialEq, Eq, Structural)]
pub enum FallbackFailure {
    /// No temporary file for the input.
    CreateInput,
    /// The input could not be written to its file.
    WriteInput,
    /// No temporary file for the output.
    CreateOutput,
    /// The transcoder did not start.
    Spawn,
    /// The transcoder ended with a status other than success.
    ExitStatus,
    /// The output could not be read.
    ReadOutput,
}

/// The name of the transcoder's program.
pub const TRANSCODER: &'static str = "ffmpeg";

impl FallbackFailure {
    pub open spec fn prefix_spec(self) -> Seq<char> {
        match self {
            FallbackFailure::CreateInput => "Failed to create temp file: "@,
            FallbackFailure::WriteInput => "Failed to write audio data: "@,
            FallbackFailure::CreateOutput => "Failed to create output file: "@,
            FallbackFailure::Spawn => "Failed to run ffmpeg: "@,
            FallbackFailure::ExitStatus => "FFmpeg conversion failed: "@,
            FallbackFailure::ReadOutput => "Failed to read converted audio: "@,
        }
    }

    /// How the report of this failure begins.
    pub fn prefix(&self) -> (text: &'static str)
        ensures
            text@ == self.prefix_spec(),
    {
        match self {
            FallbackFailure::CreateInput => "Failed to create temp file: ",
            FallbackFailure::WriteInput => "Failed to write audio data: ",
            FallbackFailure::CreateOutput => "Failed to create output file: ",
            FallbackFailure::Spawn => "Failed to run ffmpeg: ",
            FallbackFailure::ExitStatus => "FFmpeg conversion failed: ",
            FallbackFailure::ReadOutput => "Failed to read converted audio: ",
        }
    }
}

/// The error for a failure of the given kind; `detail` is what the system,
/// or the transcoder on its error stream, said.
pub fn fallback_error(kind: FallbackFailure, detail: &str) -> (error: TranscriptionError)
    ensures
        error.message_spec() == kind.prefix_spec() + detail@,
{
    let message = String::from_str(kind.prefix()).concat(detail);
    TranscriptionError::AudioReadError { message }
}

/// Judges the end of the transcoder: a status other than success is an
/// error that carries the error stream.
pub fn check_exit(success: bool, stderr: &str) -> (checked: Result<(), TranscriptionError>)
    ensures
        success <==> checked is Ok,
        checked matches Err(error) ==> error.message_spec()
            == FallbackFailure::ExitStatus.prefix_spec() + stderr@,
{
    if success {
        Ok(())
    } else {
        Err(fallback_error(FallbackFailure::ExitStatus, stderr))
    }
}

/// The arguments of the transcoder, in order: the input, then 16000 Hz, one
/// channel, signed 16-bit little-endian PCM, overwriting allowed, then the
/// output.
pub open spec fn ffmpeg_arguments_spec(input_path: Seq<char>, output_path: Seq<char>) -> Seq<
    Seq<char>,
> {
    seq![
        "-i"@,
        input_path,
        "-ar"@,
        "16000"@,
        "-ac"@,
        "1"@,
        "-c:a"@,
        "pcm_s16le"@,
        "-y"@,
        output_path,
    ]
}

/// The arguments with which the transcoder is run.
pub fn ffmpeg_arguments(input_path: &str, output_path: &str) -> (arguments: Vec<String>)
    ensures
        arguments@.map_values(|s: String| s@) == ffmpeg_arguments_spec(input_path@, output_path@),
{
    let mut arguments: Vec<String> = Vec::with_capacity(10);
    arguments.push(String::from_str("-i"));
    arguments.push(String::from_str(input_path));
    arguments.push(String::from_str("-ar"));
    arguments.push(String::from_str("16000"));
    arguments.push(String::from_str("-ac"));
    arguments.push(String::from_str("1"));
    arguments.push(String::from_str("-c:a"));
    arguments.push(String::from_str("pcm_s16le"));
    arguments.push(String::from_str("-y"));
    arguments.push(String::from_str(output_path));
    assert(arguments@.map_values(|s: String| s@) =~= ffmpeg_arguments_spec(
        input_path@,
        output_path@,
    ));
    arguments
}

} // verus!
