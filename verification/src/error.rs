//! Everything that can go wrong.

use vstd::prelude::*;

use crate::number::{dec, decimal};
use crate::binary64::writing::fixed_text;
use crate::binary64::Binary64;
use crate::text::{cat2, cat3, cat4, cat5, occurs, occurs_at};

verus! {

/// Top-level error type.
///
/// All errors are distinct variants, so that a caller can match on them and
/// [`exit_code`] can tell a user's mistake from a failure. A path is held as
/// the text in which it is shown.
#[derive(Debug)]
pub enum LimitcutError {
    // Input validation
    /// No such input file.
    InputNotFound(String),
    /// An input path that names no file.
    InputNotAFile(String),
    /// The output is already there and may not be overwritten.
    OutputExists(String),
    /// The directory of the output is something else.
    OutputDirNotADirectory(String),
    /// The inputs given make up no mode of the program.
    InvalidInputMode(&'static str),
    /// A blur region that is not `x:y:w:h`.
    InvalidBlurRegion { input: String },
    /// A blur preview with nothing to blur.
    PreviewBlurWithoutRegions,
    /// More black than there is pre-video.
    BlackHoldExceedsCutPoint { hold: Binary64, cut: Binary64 },
    ResolutionProbeFailed { path: String, stderr: String },
    ResolutionParseFailed { raw: String },
    // Configuration
    /// The configuration file could not be read or makes no sense.
    ConfigParseError { path: String, source: String },
    // Metadata files
    JsonNotFound(String),
    JsonNotAFile(String),
    JsonDirNotFound(String),
    JsonDirNotADir(String),
    JsonDirReadFailed { path: String, source: String },
    NoJsonFilesFound(String),
    InstapostWatchDirNotFound(String),
    InstapostWatchDirNotADir(String),
    InstapostWatchDirReadFailed { path: String, source: String },
    JsonParseFailed { path: String, message: String },
    JsonMissingField { path: String, field: &'static str },
    JsonEmptyField { path: String, field: &'static str },
    JsonInvalidDatetime { path: String, value: String },
    JsonVideoNotFound { json: String, video: String },
    JsonEncounterNameEmpty { path: String },
    // FFmpeg and FFprobe
    FfmpegNotFound,
    FfprobeNotFound,
    FfprobeFailed { path: String, stderr: String },
    DurationParseFailed { raw: String, source: String },
    AudioExtractionFailed { path: String, stderr: String },
    AudioDataCorrupt { len: usize },
    ConcatFailed { stderr: String },
    FfmpegSpawnFailed(String),
    // Correlation
    CorrelationScoreTooLow { score: Binary64, threshold: Binary64 },
    SilentAudio,
    NeedleTooLong { needle_len: usize, haystack_len: usize },
    CutPointOutOfRange { cut: Binary64, duration: Binary64 },
    EmptyPreAudio,
    EmptyPostAudio,
    // Upload
    DiscordUploadFailed { url: String, message: String },
}

impl LimitcutError {
    /// The text of [`LimitcutError::message`].
    pub open spec fn text(self) -> Seq<char> {
        match self {
            LimitcutError::InputNotFound(p) => "Input file not found: "@ + p@,
            LimitcutError::InputNotAFile(p) => "Input path is not a file: "@ + p@,
            LimitcutError::OutputExists(p) => "Output path already exists (use --overwrite to replace): "@ + p@,
            LimitcutError::OutputDirNotADirectory(p) => "Output directory path is not a directory: "@ + p@,
            LimitcutError::InvalidInputMode(p) => "Invalid input mode: "@ + p@,
            LimitcutError::InvalidBlurRegion { input } => "Invalid blur region '"@ + input@ + "': expected x:y:w:h with non-negative integers"@,
            LimitcutError::PreviewBlurWithoutRegions => "--preview-blur requires at least one --blur region"@,
            LimitcutError::BlackHoldExceedsCutPoint { hold, cut } => "--black-hold ("@ + fixed_text(hold, 1) + "s) exceeds the pre-video cut point ("@ + fixed_text(cut, 1) + "s). Use a shorter --black-hold value."@,
            LimitcutError::ResolutionProbeFailed { path, stderr } => "Failed to probe video resolution from "@ + path@ + ": "@ + stderr@,
            LimitcutError::ResolutionParseFailed { raw } => "Failed to parse video resolution from ffprobe output '"@ + raw@ + "'"@,
            LimitcutError::ConfigParseError { path, source } => "Failed to parse config file "@ + path@ + ": "@ + source@,
            LimitcutError::JsonNotFound(p) => "JSON file not found: "@ + p@,
            LimitcutError::JsonNotAFile(p) => "JSON path is not a file: "@ + p@,
            LimitcutError::JsonDirNotFound(p) => "JSON directory not found: "@ + p@,
            LimitcutError::JsonDirNotADir(p) => "JSON directory path is not a directory: "@ + p@,
            LimitcutError::JsonDirReadFailed { path, source } => "Failed to read JSON directory "@ + path@ + ": "@ + source@,
            LimitcutError::NoJsonFilesFound(p) => "No JSON files found in directory: "@ + p@,
            LimitcutError::InstapostWatchDirNotFound(p) => "InstaPost watch directory not found: "@ + p@,
            LimitcutError::InstapostWatchDirNotADir(p) => "InstaPost watch path is not a directory: "@ + p@,
            LimitcutError::InstapostWatchDirReadFailed { path, source } => "Failed to read InstaPost watch directory "@ + path@ + ": "@ + source@,
            LimitcutError::JsonParseFailed { path, message } => "Failed to parse JSON file "@ + path@ + ": "@ + message@,
            LimitcutError::JsonMissingField { path, field } => "JSON file "@ + path@ + " is missing required field '"@ + field@ + "'"@,
            LimitcutError::JsonEmptyField { path, field } => "JSON file "@ + path@ + " has an empty field '"@ + field@ + "'"@,
            LimitcutError::JsonInvalidDatetime { path, value } => "JSON file "@ + path@ + " has an invalid started_at value '"@ + value@ + "'"@,
            LimitcutError::JsonVideoNotFound { json, video } => "JSON file "@ + json@ + " refers to a video that does not exist: "@ + video@,
            LimitcutError::JsonEncounterNameEmpty { path } => "JSON file "@ + path@ + " has an encounter name with no usable characters"@,
            LimitcutError::FfmpegNotFound => "ffmpeg not found in PATH. Install ffmpeg to use limitcut."@,
            LimitcutError::FfprobeNotFound => "ffprobe not found in PATH. Install ffmpeg (which includes ffprobe) to use limitcut."@,
            LimitcutError::FfprobeFailed { path, stderr } => "ffprobe failed on "@ + path@ + ": "@ + stderr@,
            LimitcutError::DurationParseFailed { raw, source } => "Failed to parse duration from ffprobe output '"@ + raw@ + "': "@ + source@,
            LimitcutError::AudioExtractionFailed { path, stderr } => "Failed to extract audio PCM from "@ + path@ + ": "@ + stderr@,
            LimitcutError::AudioDataCorrupt { len } => "Audio data length "@ + dec(len as nat) + " is not a multiple of 4 (corrupt PCM output)"@,
            LimitcutError::ConcatFailed { stderr } => "FFmpeg concat failed:\n"@ + stderr@,
            LimitcutError::FfmpegSpawnFailed(p) => "FFmpeg process could not be spawned: "@ + p@,
            LimitcutError::CorrelationScoreTooLow { score, threshold } => "No audio overlap detected (correlation score "@ + fixed_text(score, 3) + " < threshold "@ + fixed_text(threshold, 3) + "). The two videos may not overlap, or both clips are silent."@,
            LimitcutError::SilentAudio => "Audio clip is silent — cannot correlate silent audio"@,
            LimitcutError::NeedleTooLong { needle_len, haystack_len } => "Needle ("@ + dec(needle_len as nat) + " samples) is longer than haystack ("@ + dec(haystack_len as nat) + " samples). The post-video head window is larger than the pre-video tail window."@,
            LimitcutError::CutPointOutOfRange { cut, duration } => "Correlation produced an out-of-range cut point: "@ + fixed_text(cut, 3) + "s (video duration: "@ + fixed_text(duration, 3) + "s)"@,
            LimitcutError::EmptyPreAudio => "Pre-video audio is empty — file may have no audio track"@,
            LimitcutError::EmptyPostAudio => "Post-video audio is empty — file may have no audio track"@,
            LimitcutError::DiscordUploadFailed { url, message } => "Discord upload to "@ + url@ + " failed: "@ + message@,
        }
    }

    /// What to tell the user.
    pub fn message(&self) -> (out: String)
        ensures
            out@ == self.text(),
    {
        match self {
            LimitcutError::InputNotFound(p) => cat2("Input file not found: ", p.as_str()),
            LimitcutError::InputNotAFile(p) => cat2("Input path is not a file: ", p.as_str()),
            LimitcutError::OutputExists(p) => cat2("Output path already exists (use --overwrite to replace): ", p.as_str()),
            LimitcutError::OutputDirNotADirectory(p) => cat2("Output directory path is not a directory: ", p.as_str()),
            LimitcutError::InvalidInputMode(p) => cat2("Invalid input mode: ", p),
            LimitcutError::InvalidBlurRegion { input } => cat3("Invalid blur region '", input.as_str(), "': expected x:y:w:h with non-negative integers"),
            LimitcutError::PreviewBlurWithoutRegions => "--preview-blur requires at least one --blur region".to_owned(),
            LimitcutError::BlackHoldExceedsCutPoint { hold, cut } => cat5("--black-hold (", hold.fixed(1).as_str(), "s) exceeds the pre-video cut point (", cut.fixed(1).as_str(), "s). Use a shorter --black-hold value."),
            LimitcutError::ResolutionProbeFailed { path, stderr } => cat4("Failed to probe video resolution from ", path.as_str(), ": ", stderr.as_str()),
            LimitcutError::ResolutionParseFailed { raw } => cat3("Failed to parse video resolution from ffprobe output '", raw.as_str(), "'"),
            LimitcutError::ConfigParseError { path, source } => cat4("Failed to parse config file ", path.as_str(), ": ", source.as_str()),
            LimitcutError::JsonNotFound(p) => cat2("JSON file not found: ", p.as_str()),
            LimitcutError::JsonNotAFile(p) => cat2("JSON path is not a file: ", p.as_str()),
            LimitcutError::JsonDirNotFound(p) => cat2("JSON directory not found: ", p.as_str()),
            LimitcutError::JsonDirNotADir(p) => cat2("JSON directory path is not a directory: ", p.as_str()),
            LimitcutError::JsonDirReadFailed { path, source } => cat4("Failed to read JSON directory ", path.as_str(), ": ", source.as_str()),
            LimitcutError::NoJsonFilesFound(p) => cat2("No JSON files found in directory: ", p.as_str()),
            LimitcutError::InstapostWatchDirNotFound(p) => cat2("InstaPost watch directory not found: ", p.as_str()),
            LimitcutError::InstapostWatchDirNotADir(p) => cat2("InstaPost watch path is not a directory: ", p.as_str()),
            LimitcutError::InstapostWatchDirReadFailed { path, source } => cat4("Failed to read InstaPost watch directory ", path.as_str(), ": ", source.as_str()),
            LimitcutError::JsonParseFailed { path, message } => cat4("Failed to parse JSON file ", path.as_str(), ": ", message.as_str()),
            LimitcutError::JsonMissingField { path, field } => cat5("JSON file ", path.as_str(), " is missing required field '", field, "'"),
            LimitcutError::JsonEmptyField { path, field } => cat5("JSON file ", path.as_str(), " has an empty field '", field, "'"),
            LimitcutError::JsonInvalidDatetime { path, value } => cat5("JSON file ", path.as_str(), " has an invalid started_at value '", value.as_str(), "'"),
            LimitcutError::JsonVideoNotFound { json, video } => cat4("JSON file ", json.as_str(), " refers to a video that does not exist: ", video.as_str()),
            LimitcutError::JsonEncounterNameEmpty { path } => cat3("JSON file ", path.as_str(), " has an encounter name with no usable characters"),
            LimitcutError::FfmpegNotFound => "ffmpeg not found in PATH. Install ffmpeg to use limitcut.".to_owned(),
            LimitcutError::FfprobeNotFound => "ffprobe not found in PATH. Install ffmpeg (which includes ffprobe) to use limitcut.".to_owned(),
            LimitcutError::FfprobeFailed { path, stderr } => cat4("ffprobe failed on ", path.as_str(), ": ", stderr.as_str()),
            LimitcutError::DurationParseFailed { raw, source } => cat4("Failed to parse duration from ffprobe output '", raw.as_str(), "': ", source.as_str()),
            LimitcutError::AudioExtractionFailed { path, stderr } => cat4("Failed to extract audio PCM from ", path.as_str(), ": ", stderr.as_str()),
            LimitcutError::AudioDataCorrupt { len } => cat3("Audio data length ", decimal(*len as u128).as_str(), " is not a multiple of 4 (corrupt PCM output)"),
            LimitcutError::ConcatFailed { stderr } => cat2("FFmpeg concat failed:\n", stderr.as_str()),
            LimitcutError::FfmpegSpawnFailed(p) => cat2("FFmpeg process could not be spawned: ", p.as_str()),
            LimitcutError::CorrelationScoreTooLow { score, threshold } => cat5("No audio overlap detected (correlation score ", score.fixed(3).as_str(), " < threshold ", threshold.fixed(3).as_str(), "). The two videos may not overlap, or both clips are silent."),
            LimitcutError::SilentAudio => "Audio clip is silent — cannot correlate silent audio".to_owned(),
            LimitcutError::NeedleTooLong { needle_len, haystack_len } => cat5("Needle (", decimal(*needle_len as u128).as_str(), " samples) is longer than haystack (", decimal(*haystack_len as u128).as_str(), " samples). The post-video head window is larger than the pre-video tail window."),
            LimitcutError::CutPointOutOfRange { cut, duration } => cat5("Correlation produced an out-of-range cut point: ", cut.fixed(3).as_str(), "s (video duration: ", duration.fixed(3).as_str(), "s)"),
            LimitcutError::EmptyPreAudio => "Pre-video audio is empty — file may have no audio track".to_owned(),
            LimitcutError::EmptyPostAudio => "Post-video audio is empty — file may have no audio track".to_owned(),
            LimitcutError::DiscordUploadFailed { url, message } => cat4("Discord upload to ", url.as_str(), " failed: ", message.as_str()),
        }
    }

    /// Whether the user can mend the error by giving other input: a bad path,
    /// a bad argument, a bad metadata or configuration file.
    pub open spec fn is_user_error(self) -> bool {
        match self {
            LimitcutError::InputNotFound(_) => true,
            LimitcutError::InputNotAFile(_) => true,
            LimitcutError::OutputExists(_) => true,
            LimitcutError::OutputDirNotADirectory(_) => true,
            LimitcutError::InvalidInputMode(_) => true,
            LimitcutError::InvalidBlurRegion { .. } => true,
            LimitcutError::PreviewBlurWithoutRegions => true,
            LimitcutError::BlackHoldExceedsCutPoint { .. } => true,
            LimitcutError::ConfigParseError { .. } => true,
            LimitcutError::JsonNotFound(_) => true,
            LimitcutError::JsonNotAFile(_) => true,
            LimitcutError::JsonDirNotFound(_) => true,
            LimitcutError::JsonDirNotADir(_) => true,
            LimitcutError::JsonDirReadFailed { .. } => true,
            LimitcutError::NoJsonFilesFound(_) => true,
            LimitcutError::InstapostWatchDirNotFound(_) => true,
            LimitcutError::InstapostWatchDirNotADir(_) => true,
            LimitcutError::InstapostWatchDirReadFailed { .. } => true,
            LimitcutError::JsonParseFailed { .. } => true,
            LimitcutError::JsonMissingField { .. } => true,
            LimitcutError::JsonEmptyField { .. } => true,
            LimitcutError::JsonInvalidDatetime { .. } => true,
            LimitcutError::JsonVideoNotFound { .. } => true,
            LimitcutError::JsonEncounterNameEmpty { .. } => true,
            _ => false,
        }
    }
}

/// Map an error to a shell exit code.
///
/// 1 for invalid user input, 2 for a processing failure. An error that is no
/// [`LimitcutError`] (`None`) is a processing failure.
pub fn exit_code(err: Option<&LimitcutError>) -> (code: i32)
    ensures
        code == 1 <==> (err is Some && err->0.is_user_error()),
        code == 2 <==> !(err is Some && err->0.is_user_error()),
{
    match err {
        Some(e) => match e {
            LimitcutError::InputNotFound(_) => 1,
            LimitcutError::InputNotAFile(_) => 1,
            LimitcutError::OutputExists(_) => 1,
            LimitcutError::OutputDirNotADirectory(_) => 1,
            LimitcutError::InvalidInputMode(_) => 1,
            LimitcutError::InvalidBlurRegion { .. } => 1,
            LimitcutError::PreviewBlurWithoutRegions => 1,
            LimitcutError::BlackHoldExceedsCutPoint { .. } => 1,
            LimitcutError::ConfigParseError { .. } => 1,
            LimitcutError::JsonNotFound(_) => 1,
            LimitcutError::JsonNotAFile(_) => 1,
            LimitcutError::JsonDirNotFound(_) => 1,
            LimitcutError::JsonDirNotADir(_) => 1,
            LimitcutError::JsonDirReadFailed { .. } => 1,
            LimitcutError::NoJsonFilesFound(_) => 1,
            LimitcutError::InstapostWatchDirNotFound(_) => 1,
            LimitcutError::InstapostWatchDirNotADir(_) => 1,
            LimitcutError::InstapostWatchDirReadFailed { .. } => 1,
            LimitcutError::JsonParseFailed { .. } => 1,
            LimitcutError::JsonMissingField { .. } => 1,
            LimitcutError::JsonEmptyField { .. } => 1,
            LimitcutError::JsonInvalidDatetime { .. } => 1,
            LimitcutError::JsonVideoNotFound { .. } => 1,
            LimitcutError::JsonEncounterNameEmpty { .. } => 1,
            _ => 2,
        },
        None => 2,
    }
}

// ── Laws ─────────────────────────────────────────────────────────────────

/// The errors that no other input would mend are those of the tools, of the
/// sound and of an upload, and no others.
pub proof fn law_processing_failures(e: LimitcutError)
    ensures
        !e.is_user_error() <==> e is ResolutionProbeFailed || e is ResolutionParseFailed || e
            is FfmpegNotFound || e is FfprobeNotFound || e is FfprobeFailed || e
            is DurationParseFailed || e is AudioExtractionFailed || e is AudioDataCorrupt || e
            is ConcatFailed || e is FfmpegSpawnFailed || e is CorrelationScoreTooLow || e
            is SilentAudio || e is NeedleTooLong || e is CutPointOutOfRange || e is EmptyPreAudio
            || e is EmptyPostAudio || e is DiscordUploadFailed,
{
}

proof fn lemma_what_is_named_stays()
    ensures
        forall|a: Seq<char>, b: Seq<char>, name: Seq<char>|
            occurs(a, name) || b == name ==> #[trigger] occurs(a + b, name),
{
    assert forall|a: Seq<char>, b: Seq<char>, name: Seq<char>|
        occurs(a, name) || b == name implies #[trigger] occurs(a + b, name) by {
        if occurs(a, name) {
            let i = choose|i: int| occurs_at(a, name, i);
            assert((a + b).subrange(i, i + name.len()) =~= a.subrange(i, i + name.len()));
            assert(occurs_at(a + b, name, i));
        } else {
            let i = a.len() as int;
            assert((a + b).subrange(i, i + name.len()) =~= name);
            assert(occurs_at(a + b, name, i));
        }
    }
}

/// Whatever an error is about stands in its text: the path, the field, the
/// answer of a tool, the times and the counts.
pub proof fn law_errors_name_what_they_are_about(e: LimitcutError)
    ensures
        match e {
            LimitcutError::InputNotFound(p) => occurs(e.text(), p@),
            LimitcutError::InputNotAFile(p) => occurs(e.text(), p@),
            LimitcutError::OutputExists(p) => occurs(e.text(), p@),
            LimitcutError::OutputDirNotADirectory(p) => occurs(e.text(), p@),
            LimitcutError::InvalidInputMode(p) => occurs(e.text(), p@),
            LimitcutError::InvalidBlurRegion { input } => occurs(e.text(), input@),
            LimitcutError::BlackHoldExceedsCutPoint { hold, cut } => {
                &&& occurs(e.text(), fixed_text(hold, 1))
                &&& occurs(e.text(), fixed_text(cut, 1))
            },
            LimitcutError::ResolutionProbeFailed { path, stderr } => {
                &&& occurs(e.text(), path@)
                &&& occurs(e.text(), stderr@)
            },
            LimitcutError::ResolutionParseFailed { raw } => occurs(e.text(), raw@),
            LimitcutError::ConfigParseError { path, source } => {
                &&& occurs(e.text(), path@)
                &&& occurs(e.text(), source@)
            },
            LimitcutError::JsonNotFound(p) => occurs(e.text(), p@),
            LimitcutError::JsonNotAFile(p) => occurs(e.text(), p@),
            LimitcutError::JsonDirNotFound(p) => occurs(e.text(), p@),
            LimitcutError::JsonDirNotADir(p) => occurs(e.text(), p@),
            LimitcutError::JsonDirReadFailed { path, source } => {
                &&& occurs(e.text(), path@)
                &&& occurs(e.text(), source@)
            },
            LimitcutError::NoJsonFilesFound(p) => occurs(e.text(), p@),
            LimitcutError::InstapostWatchDirNotFound(p) => occurs(e.text(), p@),
            LimitcutError::InstapostWatchDirNotADir(p) => occurs(e.text(), p@),
            LimitcutError::InstapostWatchDirReadFailed { path, source } => {
                &&& occurs(e.text(), path@)
                &&& occurs(e.text(), source@)
            },
            LimitcutError::JsonParseFailed { path, message } => {
                &&& occurs(e.text(), path@)
                &&& occurs(e.text(), message@)
            },
            LimitcutError::JsonMissingField { path, field } => {
                &&& occurs(e.text(), path@)
                &&& occurs(e.text(), field@)
            },
            LimitcutError::JsonEmptyField { path, field } => {
                &&& occurs(e.text(), path@)
                &&& occurs(e.text(), field@)
            },
            LimitcutError::JsonInvalidDatetime { path, value } => {
                &&& occurs(e.text(), path@)
                &&& occurs(e.text(), value@)
            },
            LimitcutError::JsonVideoNotFound { json, video } => {
                &&& occurs(e.text(), json@)
                &&& occurs(e.text(), video@)
            },
            LimitcutError::JsonEncounterNameEmpty { path } => occurs(e.text(), path@),
            LimitcutError::FfprobeFailed { path, stderr } => {
                &&& occurs(e.text(), path@)
                &&& occurs(e.text(), stderr@)
            },
            LimitcutError::DurationParseFailed { raw, source } => {
                &&& occurs(e.text(), raw@)
                &&& occurs(e.text(), source@)
            },
            LimitcutError::AudioExtractionFailed { path, stderr } => {
                &&& occurs(e.text(), path@)
                &&& occurs(e.text(), stderr@)
            },
            LimitcutError::AudioDataCorrupt { len } => occurs(e.text(), dec(len as nat)),
            LimitcutError::ConcatFailed { stderr } => occurs(e.text(), stderr@),
            LimitcutError::FfmpegSpawnFailed(p) => occurs(e.text(), p@),
            LimitcutError::CorrelationScoreTooLow { score, threshold } => {
                &&& occurs(e.text(), fixed_text(score, 3))
                &&& occurs(e.text(), fixed_text(threshold, 3))
            },
            LimitcutError::NeedleTooLong { needle_len, haystack_len } => {
                &&& occurs(e.text(), dec(needle_len as nat))
                &&& occurs(e.text(), dec(haystack_len as nat))
            },
            LimitcutError::CutPointOutOfRange { cut, duration } => {
                &&& occurs(e.text(), fixed_text(cut, 3))
                &&& occurs(e.text(), fixed_text(duration, 3))
            },
            LimitcutError::DiscordUploadFailed { url, message } => {
                &&& occurs(e.text(), url@)
                &&& occurs(e.text(), message@)
            },
            _ => true,
        },
{
    lemma_what_is_named_stays();
}

proof fn lemma_ends_stay()
    ensures
        forall|a: Seq<char>, b: Seq<char>, c: Seq<char>|
            a.is_prefix_of(b) || a == b ==> #[trigger] a.is_prefix_of(b + c),
        forall|a: Seq<char>, b: Seq<char>| #[trigger] b.is_suffix_of(a + b),
{
    assert forall|a: Seq<char>, b: Seq<char>, c: Seq<char>|
        a.is_prefix_of(b) || a == b implies #[trigger] a.is_prefix_of(b + c) by {
        assert((b + c).subrange(0, a.len() as int) =~= a);
    }
    assert forall|a: Seq<char>, b: Seq<char>| #[trigger] b.is_suffix_of(a + b) by {
        let s = a + b;
        assert(s.subrange(s.len() - b.len(), s.len() as int) =~= b);
    }
}

/// Each error is told in words of its own, around what it is about.
pub proof fn law_errors_are_told_in_words_of_their_own(e: LimitcutError)
    ensures
        match e {
            LimitcutError::InputNotFound(_) => "Input file not found: "@.is_prefix_of(e.text()),
            LimitcutError::InputNotAFile(_) => "Input path is not a file: "@.is_prefix_of(e.text()),
            LimitcutError::OutputExists(_) => "Output path already exists (use --overwrite to replace): "@.is_prefix_of(e.text()),
            LimitcutError::OutputDirNotADirectory(_) => "Output directory path is not a directory: "@.is_prefix_of(e.text()),
            LimitcutError::InvalidInputMode(_) => "Invalid input mode: "@.is_prefix_of(e.text()),
            LimitcutError::InvalidBlurRegion { .. } => {
                &&& "Invalid blur region '"@.is_prefix_of(e.text())
                &&& "': expected x:y:w:h with non-negative integers"@.is_suffix_of(e.text())
            },
            LimitcutError::PreviewBlurWithoutRegions => e.text() == "--preview-blur requires at least one --blur region"@,
            LimitcutError::BlackHoldExceedsCutPoint { .. } => {
                &&& "--black-hold ("@.is_prefix_of(e.text())
                &&& "s). Use a shorter --black-hold value."@.is_suffix_of(e.text())
            },
            LimitcutError::ResolutionProbeFailed { .. } => "Failed to probe video resolution from "@.is_prefix_of(e.text()),
            LimitcutError::ResolutionParseFailed { .. } => {
                &&& "Failed to parse video resolution from ffprobe output '"@.is_prefix_of(e.text())
                &&& "'"@.is_suffix_of(e.text())
            },
            LimitcutError::ConfigParseError { .. } => "Failed to parse config file "@.is_prefix_of(e.text()),
            LimitcutError::JsonNotFound(_) => "JSON file not found: "@.is_prefix_of(e.text()),
            LimitcutError::JsonNotAFile(_) => "JSON path is not a file: "@.is_prefix_of(e.text()),
            LimitcutError::JsonDirNotFound(_) => "JSON directory not found: "@.is_prefix_of(e.text()),
            LimitcutError::JsonDirNotADir(_) => "JSON directory path is not a directory: "@.is_prefix_of(e.text()),
            LimitcutError::JsonDirReadFailed { .. } => "Failed to read JSON directory "@.is_prefix_of(e.text()),
            LimitcutError::NoJsonFilesFound(_) => "No JSON files found in directory: "@.is_prefix_of(e.text()),
            LimitcutError::InstapostWatchDirNotFound(_) => "InstaPost watch directory not found: "@.is_prefix_of(e.text()),
            LimitcutError::InstapostWatchDirNotADir(_) => "InstaPost watch path is not a directory: "@.is_prefix_of(e.text()),
            LimitcutError::InstapostWatchDirReadFailed { .. } => "Failed to read InstaPost watch directory "@.is_prefix_of(e.text()),
            LimitcutError::JsonParseFailed { .. } => "Failed to parse JSON file "@.is_prefix_of(e.text()),
            LimitcutError::JsonMissingField { .. } => {
                &&& "JSON file "@.is_prefix_of(e.text())
                &&& "'"@.is_suffix_of(e.text())
            },
            LimitcutError::JsonEmptyField { .. } => {
                &&& "JSON file "@.is_prefix_of(e.text())
                &&& "'"@.is_suffix_of(e.text())
            },
            LimitcutError::JsonInvalidDatetime { .. } => {
                &&& "JSON file "@.is_prefix_of(e.text())
                &&& "'"@.is_suffix_of(e.text())
            },
            LimitcutError::JsonVideoNotFound { .. } => "JSON file "@.is_prefix_of(e.text()),
            LimitcutError::JsonEncounterNameEmpty { .. } => {
                &&& "JSON file "@.is_prefix_of(e.text())
                &&& " has an encounter name with no usable characters"@.is_suffix_of(e.text())
            },
            LimitcutError::FfmpegNotFound => e.text() == "ffmpeg not found in PATH. Install ffmpeg to use limitcut."@,
            LimitcutError::FfprobeNotFound => e.text() == "ffprobe not found in PATH. Install ffmpeg (which includes ffprobe) to use limitcut."@,
            LimitcutError::FfprobeFailed { .. } => "ffprobe failed on "@.is_prefix_of(e.text()),
            LimitcutError::DurationParseFailed { .. } => "Failed to parse duration from ffprobe output '"@.is_prefix_of(e.text()),
            LimitcutError::AudioExtractionFailed { .. } => "Failed to extract audio PCM from "@.is_prefix_of(e.text()),
            LimitcutError::AudioDataCorrupt { .. } => {
                &&& "Audio data length "@.is_prefix_of(e.text())
                &&& " is not a multiple of 4 (corrupt PCM output)"@.is_suffix_of(e.text())
            },
            LimitcutError::ConcatFailed { .. } => "FFmpeg concat failed:\n"@.is_prefix_of(e.text()),
            LimitcutError::FfmpegSpawnFailed(_) => "FFmpeg process could not be spawned: "@.is_prefix_of(e.text()),
            LimitcutError::CorrelationScoreTooLow { .. } => {
                &&& "No audio overlap detected (correlation score "@.is_prefix_of(e.text())
                &&& "). The two videos may not overlap, or both clips are silent."@.is_suffix_of(e.text())
            },
            LimitcutError::SilentAudio => e.text() == "Audio clip is silent — cannot correlate silent audio"@,
            LimitcutError::NeedleTooLong { .. } => {
                &&& "Needle ("@.is_prefix_of(e.text())
                &&& " samples). The post-video head window is larger than the pre-video tail window."@.is_suffix_of(e.text())
            },
            LimitcutError::CutPointOutOfRange { .. } => {
                &&& "Correlation produced an out-of-range cut point: "@.is_prefix_of(e.text())
                &&& "s)"@.is_suffix_of(e.text())
            },
            LimitcutError::EmptyPreAudio => e.text() == "Pre-video audio is empty — file may have no audio track"@,
            LimitcutError::EmptyPostAudio => e.text() == "Post-video audio is empty — file may have no audio track"@,
            LimitcutError::DiscordUploadFailed { .. } => "Discord upload to "@.is_prefix_of(e.text()),
        },
{
    lemma_ends_stay();
}

} // verus!
