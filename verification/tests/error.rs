use limitcut::error::{exit_code, LimitcutError};
use limitcut::binary64::Binary64;

fn s(text: &str) -> String {
    text.to_owned()
}

#[test]
fn messages_and_exit_codes() {
    let t = |n: f64| Binary64 { bits: n.to_bits() };
    let score = t;
    let all: Vec<(LimitcutError, &str, i32)> = vec![
        (LimitcutError::InputNotFound(s("p")), "Input file not found: p", 1),
        (LimitcutError::InputNotAFile(s("p")), "Input path is not a file: p", 1),
        (
            LimitcutError::OutputExists(s("p")),
            "Output path already exists (use --overwrite to replace): p",
            1,
        ),
        (
            LimitcutError::OutputDirNotADirectory(s("p")),
            "Output directory path is not a directory: p",
            1,
        ),
        (LimitcutError::InvalidInputMode("m"), "Invalid input mode: m", 1),
        (
            LimitcutError::InvalidBlurRegion { input: s("i") },
            "Invalid blur region 'i': expected x:y:w:h with non-negative integers",
            1,
        ),
        (
            LimitcutError::PreviewBlurWithoutRegions,
            "--preview-blur requires at least one --blur region",
            1,
        ),
        (
            LimitcutError::BlackHoldExceedsCutPoint {
                hold: t(12.34),
                cut: t(5.0),
            },
            "--black-hold (12.3s) exceeds the pre-video cut point (5.0s). Use a shorter --black-hold value.",
            1,
        ),
        (
            LimitcutError::ResolutionProbeFailed {
                path: s("p"),
                stderr: s("e"),
            },
            "Failed to probe video resolution from p: e",
            2,
        ),
        (
            LimitcutError::ResolutionParseFailed { raw: s("r") },
            "Failed to parse video resolution from ffprobe output 'r'",
            2,
        ),
        (
            LimitcutError::ConfigParseError {
                path: s("p"),
                source: s("e"),
            },
            "Failed to parse config file p: e",
            1,
        ),
        (LimitcutError::JsonNotFound(s("p")), "JSON file not found: p", 1),
        (LimitcutError::JsonNotAFile(s("p")), "JSON path is not a file: p", 1),
        (LimitcutError::JsonDirNotFound(s("p")), "JSON directory not found: p", 1),
        (
            LimitcutError::JsonDirNotADir(s("p")),
            "JSON directory path is not a directory: p",
            1,
        ),
        (
            LimitcutError::JsonDirReadFailed {
                path: s("p"),
                source: s("e"),
            },
            "Failed to read JSON directory p: e",
            1,
        ),
        (
            LimitcutError::NoJsonFilesFound(s("p")),
            "No JSON files found in directory: p",
            1,
        ),
        (
            LimitcutError::InstapostWatchDirNotFound(s("p")),
            "InstaPost watch directory not found: p",
            1,
        ),
        (
            LimitcutError::InstapostWatchDirNotADir(s("p")),
            "InstaPost watch path is not a directory: p",
            1,
        ),
        (
            LimitcutError::InstapostWatchDirReadFailed {
                path: s("p"),
                source: s("e"),
            },
            "Failed to read InstaPost watch directory p: e",
            1,
        ),
        (
            LimitcutError::JsonParseFailed {
                path: s("p"),
                message: s("e"),
            },
            "Failed to parse JSON file p: e",
            1,
        ),
        (
            LimitcutError::JsonMissingField {
                path: s("p"),
                field: "f",
            },
            "JSON file p is missing required field 'f'",
            1,
        ),
        (
            LimitcutError::JsonEmptyField {
                path: s("p"),
                field: "f",
            },
            "JSON file p has an empty field 'f'",
            1,
        ),
        (
            LimitcutError::JsonInvalidDatetime {
                path: s("p"),
                value: s("v"),
            },
            "JSON file p has an invalid started_at value 'v'",
            1,
        ),
        (
            LimitcutError::JsonVideoNotFound {
                json: s("p"),
                video: s("v"),
            },
            "JSON file p refers to a video that does not exist: v",
            1,
        ),
        (
            LimitcutError::JsonEncounterNameEmpty { path: s("p") },
            "JSON file p has an encounter name with no usable characters",
            1,
        ),
        (
            LimitcutError::FfmpegNotFound,
            "ffmpeg not found in PATH. Install ffmpeg to use limitcut.",
            2,
        ),
        (
            LimitcutError::FfprobeNotFound,
            "ffprobe not found in PATH. Install ffmpeg (which includes ffprobe) to use limitcut.",
            2,
        ),
        (
            LimitcutError::FfprobeFailed {
                path: s("p"),
                stderr: s("e"),
            },
            "ffprobe failed on p: e",
            2,
        ),
        (
            LimitcutError::DurationParseFailed {
                raw: s("r"),
                source: s("e"),
            },
            "Failed to parse duration from ffprobe output 'r': e",
            2,
        ),
        (
            LimitcutError::AudioExtractionFailed {
                path: s("p"),
                stderr: s("e"),
            },
            "Failed to extract audio PCM from p: e",
            2,
        ),
        (
            LimitcutError::AudioDataCorrupt { len: 7 },
            "Audio data length 7 is not a multiple of 4 (corrupt PCM output)",
            2,
        ),
        (
            LimitcutError::ConcatFailed { stderr: s("e") },
            "FFmpeg concat failed:\ne",
            2,
        ),
        (
            LimitcutError::FfmpegSpawnFailed(s("e")),
            "FFmpeg process could not be spawned: e",
            2,
        ),
        (
            LimitcutError::CorrelationScoreTooLow {
                score: score(0.123456789),
                threshold: score(0.3),
            },
            "No audio overlap detected (correlation score 0.123 < threshold 0.300). \
             The two videos may not overlap, or both clips are silent.",
            2,
        ),
        (
            LimitcutError::SilentAudio,
            "Audio clip is silent \u{2014} cannot correlate silent audio",
            2,
        ),
        (
            LimitcutError::NeedleTooLong {
                needle_len: 20,
                haystack_len: 10,
            },
            "Needle (20 samples) is longer than haystack (10 samples). \
             The post-video head window is larger than the pre-video tail window.",
            2,
        ),
        (
            LimitcutError::CutPointOutOfRange {
                cut: t(5.5006),
                duration: t(5.0),
            },
            "Correlation produced an out-of-range cut point: 5.501s (video duration: 5.000s)",
            2,
        ),
        (
            LimitcutError::EmptyPreAudio,
            "Pre-video audio is empty \u{2014} file may have no audio track",
            2,
        ),
        (
            LimitcutError::EmptyPostAudio,
            "Post-video audio is empty \u{2014} file may have no audio track",
            2,
        ),
        (
            LimitcutError::DiscordUploadFailed {
                url: s("u"),
                message: s("m"),
            },
            "Discord upload to u failed: m",
            2,
        ),
    ];
    for (err, message, code) in &all {
        assert_eq!(err.message(), *message);
        assert_eq!(exit_code(Some(err)), *code, "{message}");
    }
}
