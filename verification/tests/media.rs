use limitcut::error::LimitcutError;
use limitcut::ffmpeg::audio::{build_pcm_command, pcm_samples, CORRELATION_SAMPLE_RATE};
use limitcut::ffmpeg::command::{Arg, FfmpegCommand};
use limitcut::ffmpeg::probe::{
    build_duration_command, build_resolution_command, duration_text, duration_value,
    probe_resolution,
};
use limitcut::binary64::Binary64;

fn secs(s: f64) -> Binary64 {
    Binary64 {
        bits: s.to_bits(),
    }
}

fn args_of(cmd: &FfmpegCommand<'_, String>) -> Vec<String> {
    cmd.args
        .iter()
        .map(|a| match a {
            Arg::Text(s) => s.clone(),
            Arg::File(f) => (*f).clone(),
        })
        .collect()
}

// ── Audio ─────────────────────────────────────────────────────────────────

#[test]
fn bytes_to_f32_samples() {
    // 1.0f32 in little-endian bytes
    let one: [u8; 4] = 1.0f32.to_le_bytes();
    // -1.0f32 in little-endian bytes
    let neg_one: [u8; 4] = (-1.0f32).to_le_bytes();
    let bytes: Vec<u8> = one.iter().chain(neg_one.iter()).copied().collect();

    let samples: Vec<f32> = pcm_samples("a.mkv", true, &bytes, String::new())
        .unwrap()
        .into_iter()
        .map(f32::from_bits)
        .collect();

    assert_eq!(samples.len(), 2);
    assert!((samples[0] - 1.0).abs() < f32::EPSILON);
    assert!((samples[1] + 1.0).abs() < f32::EPSILON);
}

#[test]
fn odd_byte_count_would_error() {
    // 7 bytes is not a multiple of 4
    let bytes = [0u8; 7];
    let result = pcm_samples("a.mkv", true, &bytes, String::new());
    assert!(matches!(
        result,
        Err(LimitcutError::AudioDataCorrupt { len: 7 })
    ));
}

#[test]
fn samples_are_little_endian_words() {
    let bytes = [1, 2, 3, 4, 0xff, 0xff, 0xff, 0xff, 0, 0, 0, 0x80];
    assert_eq!(
        pcm_samples("a.mkv", true, &bytes, String::new()).unwrap(),
        [0x0403_0201, u32::MAX, 0x8000_0000]
    );
    assert_eq!(
        pcm_samples("a.mkv", true, &[], String::new()).unwrap(),
        Vec::<u32>::new()
    );
}

#[test]
fn failed_extraction_comes_before_corrupt_data() {
    match pcm_samples("a.mkv", false, &[0u8; 7], "boom".to_owned()) {
        Err(LimitcutError::AudioExtractionFailed { path, stderr }) => {
            assert_eq!((path.as_str(), stderr.as_str()), ("a.mkv", "boom"))
        }
        other => panic!("{other:?}"),
    }
}

#[test]
fn pcm_command_in_full() {
    let (ffmpeg, media) = ("ffmpeg".to_owned(), "a.mkv".to_owned());
    assert_eq!(CORRELATION_SAMPLE_RATE, 16_000);
    assert_eq!(
        args_of(&build_pcm_command(&ffmpeg, &media, secs(4.5), secs(6.0))),
        [
            "-hide_banner",
            "-loglevel",
            "error",
            "-ss",
            "4.500000",
            "-i",
            "a.mkv",
            "-t",
            "6.000000",
            "-vn",
            "-ac",
            "1",
            "-ar",
            "16000",
            "-f",
            "f32le",
            "-"
        ]
    );
    let args = args_of(&build_pcm_command(&ffmpeg, &media, secs(0.0), secs(0.5)));
    assert_eq!(args[3..7], ["-i", "a.mkv", "-t", "0.500000"]);
}

// ── Duration ──────────────────────────────────────────────────────────────

fn read_duration(stdout: &str) -> Result<Binary64, LimitcutError> {
    let raw = duration_text("a.mkv", true, stdout, String::new())?;
    let parsed = raw
        .parse::<f64>()
        .map(secs)
        .map_err(|source| source.to_string());
    duration_value(raw, parsed)
}

#[test]
fn parse_valid_duration() {
    let raw = "123.456000";
    let parsed = f64::from_bits(read_duration(raw).unwrap().bits);
    assert!((parsed - 123.456).abs() < 0.001);
}

#[test]
fn parse_integer_duration() {
    let raw = "60\n";
    let parsed = f64::from_bits(read_duration(raw).unwrap().bits);
    assert!((parsed - 60.0).abs() < 0.001);
}

#[test]
fn parse_invalid_duration_fails() {
    let raw = "N/A";
    let result = read_duration(raw);
    assert!(result.is_err());
    match result {
        Err(LimitcutError::DurationParseFailed { raw, source }) => {
            assert_eq!(raw, "N/A");
            assert_eq!(source, "invalid float literal");
        }
        other => panic!("{other:?}"),
    }
}

#[test]
fn failed_probe_is_told() {
    match duration_text("a.mkv", false, "60\n", "boom".to_owned()) {
        Err(LimitcutError::FfprobeFailed { path, stderr }) => {
            assert_eq!((path.as_str(), stderr.as_str()), ("a.mkv", "boom"))
        }
        other => panic!("{other:?}"),
    }
}

#[test]
fn probe_commands_in_full() {
    let (ffprobe, media) = ("ffprobe".to_owned(), "a.mkv".to_owned());
    assert_eq!(
        args_of(&build_duration_command(&ffprobe, &media)),
        [
            "-v",
            "error",
            "-show_entries",
            "format=duration",
            "-of",
            "default=noprint_wrappers=1:nokey=1",
            "a.mkv"
        ]
    );
    assert_eq!(
        args_of(&build_resolution_command(&ffprobe, &media)),
        [
            "-v",
            "error",
            "-select_streams",
            "v:0",
            "-show_entries",
            "stream=width,height",
            "-of",
            "csv=p=0:s=x",
            "a.mkv"
        ]
    );
}

// ── Resolution ────────────────────────────────────────────────────────────

#[test]
fn parse_resolution_valid() {
    // "1920x1080\n" as ffprobe writes it
    let raw = "1920x1080";
    assert_eq!(
        probe_resolution("a.mkv", true, raw, String::new()).unwrap(),
        (1920, 1080)
    );
    assert_eq!(
        probe_resolution("a.mkv", true, "1920x1080\n", String::new()).unwrap(),
        (1920, 1080)
    );
}

#[test]
fn parse_resolution_invalid() {
    let raw = "not_a_resolution";
    match probe_resolution("a.mkv", true, raw, String::new()) {
        Err(LimitcutError::ResolutionParseFailed { raw: r }) => assert_eq!(r, raw),
        other => panic!("{other:?}"),
    }
}

#[test]
fn parse_resolution_edges() {
    assert_eq!(
        probe_resolution("a", true, " 4 x 4294967295 \n", String::new()).unwrap(),
        (4, u32::MAX)
    );
    for bad in ["", "x", "1x", "x1", "1x2x3", "1x4294967296", "-1x2", "1 2x3"] {
        assert!(matches!(
            probe_resolution("a", true, bad, String::new()),
            Err(LimitcutError::ResolutionParseFailed { .. })
        ));
    }
    assert!(matches!(
        probe_resolution("a", false, "1x2", "boom".to_owned()),
        Err(LimitcutError::ResolutionProbeFailed { .. })
    ));
}
