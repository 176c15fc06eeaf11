//! Media payloads and the transcoder that turns them into mono 16 kHz 16-bit
//! PCM in a WAV container.

use vstd::prelude::*;
use vstd::utf8::{decode_utf8, valid_utf8};
use crate::text::utf8_to_string;

verus! {

/// A media payload; its container is implied by its kind.
#[derive(Debug, PartialEq, Eq)]
pub enum MediaKind {
    /// A voice note in an Ogg/Opus container.
    Ogg(Vec<u8>),
    /// A video note in an MP4 container.
    Mp4(Vec<u8>),
}

impl MediaKind {
    /// The raw bytes of the payload.
    pub fn bytes(&self) -> (r: &Vec<u8>)
        ensures
            r@ == match self {
                MediaKind::Ogg(b) => b@,
                MediaKind::Mp4(b) => b@,
            },
    {
        match self {
            MediaKind::Ogg(b) => b,
            MediaKind::Mp4(b) => b,
        }
    }

    /// The suffix of the temporary file that holds the payload for the transcoder.
    pub fn file_suffix(&self) -> (r: &'static str)
        ensures
            r@ == match self {
                MediaKind::Ogg(_) => ".oga"@,
                MediaKind::Mp4(_) => "mp4"@,
            },
    {
        match self {
            MediaKind::Ogg(_) => ".oga",
            MediaKind::Mp4(_) => "mp4",
        }
    }
}

/// The transcoder program.
pub fn transcoder_program() -> (r: &'static str)
    ensures
        r@ == "avconv"@,
{
    "avconv"
}

/// The transcoder's arguments for the file at `input_path`: no video,
/// signed 16-bit little-endian PCM, one channel, 16 kHz, WAV on standard output.
pub open spec fn transcoder_args_spec(input_path: Seq<char>) -> Seq<Seq<char>> {
    seq![
        "-i"@,
        input_path,
        "-vn"@,
        "-acodec"@,
        "pcm_s16le"@,
        "-ac"@,
        "1"@,
        "-ar"@,
        "16000"@,
        "-f"@,
        "wav"@,
        "pipe:"@,
    ]
}

/// The arguments of the transcoder run on the file at `input_path`.
pub fn transcoder_args(input_path: &str) -> (r: Vec<String>)
    ensures
        r@.map_values(|a: String| a@) == transcoder_args_spec(input_path@),
{
    let mut args: Vec<String> = Vec::new();
    args.push("-i".to_owned());
    args.push(input_path.to_owned());
    args.push("-vn".to_owned());
    args.push("-acodec".to_owned());
    args.push("pcm_s16le".to_owned());
    args.push("-ac".to_owned());
    args.push("1".to_owned());
    args.push("-ar".to_owned());
    args.push("16000".to_owned());
    args.push("-f".to_owned());
    args.push("wav".to_owned());
    args.push("pipe:".to_owned());
    assert(args@.map_values(|a: String| a@) =~= transcoder_args_spec(input_path@));
    args
}

/// What a finished transcoder process left: whether it exited with status
/// zero, and what it wrote to its standard output and standard error.
pub struct TranscoderOutput {
    pub exit_success: bool,
    pub stdout: Vec<u8>,
    pub stderr: Vec<u8>,
}

/// Why a payload could not be transcoded.
#[derive(Debug, PartialEq, Eq)]
pub enum ConvertError {
    /// The transcoder exited with a non-zero status and wrote this message.
    Transcoder(String),
    /// The transcoder failed and its standard error was not UTF-8 text.
    UnreadableDiagnostics,
    /// Writing or removing the temporary input file failed.
    Io(String),
}

impl ConvertError {
    /// Human-readable description of the error.
    pub fn describe(&self) -> (r: String)
        ensures
            r@ == match self {
                ConvertError::Transcoder(m) => "Transcoder error: "@ + m@,
                ConvertError::UnreadableDiagnostics => "Transcoder error: unreadable diagnostics"@,
                ConvertError::Io(m) => "Io error: "@ + m@,
            },
    {
        let mut out = String::new();
        match self {
            ConvertError::Transcoder(m) => {
                out.append("Transcoder error: ");
                out.append(m.as_str());
            },
            ConvertError::UnreadableDiagnostics => {
                out.append("Transcoder error: unreadable diagnostics");
            },
            ConvertError::Io(m) => {
                out.append("Io error: ");
                out.append(m.as_str());
            },
        }
        out
    }
}

/// The normalized audio of a finished transcoder run: its standard output when
/// it succeeded, else an error that carries its standard error as text.
pub fn convert(output: TranscoderOutput) -> (r: Result<Vec<u8>, ConvertError>)
    ensures
        output.exit_success ==> r is Ok && r->Ok_0@ == output.stdout@,
        !output.exit_success && valid_utf8(output.stderr@) ==> match r {
            Err(ConvertError::Transcoder(m)) => m@ == decode_utf8(output.stderr@),
            _ => false,
        },
        !output.exit_success && !valid_utf8(output.stderr@) ==> r is Err && r->Err_0 is UnreadableDiagnostics,
{
    if output.exit_success {
        Ok(output.stdout)
    } else {
        match utf8_to_string(&output.stderr) {
            Some(m) => Err(ConvertError::Transcoder(m)),
            None => Err(ConvertError::UnreadableDiagnostics),
        }
    }
}

} // verus!
