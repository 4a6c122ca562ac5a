use limitcut::error::LimitcutError;
use limitcut::ffmpeg::command::Arg;
use limitcut::ffmpeg::detect::{
    build_encoders_command, detect_best_encoder, encoder_present_in_text, EncoderConfig,
    FfmpegBinaries,
};

// ── EncoderConfig constructors ────────────────────────────────────────────

#[test]
fn libx264_config() {
    let enc = EncoderConfig::libx264();
    assert_eq!(enc.name, "libx264");
    assert!(enc.quality_args.contains(&"-crf".to_owned()));
    assert!(enc.quality_args.contains(&"18".to_owned()));
    assert!(enc.quality_args.contains(&"-preset".to_owned()));
    assert!(enc.quality_args.contains(&"medium".to_owned()));
}

#[test]
fn nvenc_config() {
    let enc = EncoderConfig::nvenc();
    assert_eq!(enc.name, "h264_nvenc");
    assert!(enc.quality_args.contains(&"-cq".to_owned()));
    assert!(enc.quality_args.contains(&"18".to_owned()));
}

#[test]
fn vaapi_config() {
    let enc = EncoderConfig::vaapi();
    assert_eq!(enc.name, "h264_vaapi");
    assert!(enc.quality_args.contains(&"-qp".to_owned()));
}

#[test]
fn videotoolbox_config() {
    let enc = EncoderConfig::videotoolbox();
    assert_eq!(enc.name, "h264_videotoolbox");
    assert!(enc.quality_args.contains(&"-q:v".to_owned()));
}

#[test]
fn from_name_known() {
    assert_eq!(EncoderConfig::from_name("h264_nvenc").name, "h264_nvenc");
    assert_eq!(EncoderConfig::from_name("h264_vaapi").name, "h264_vaapi");
    assert_eq!(
        EncoderConfig::from_name("h264_videotoolbox").name,
        "h264_videotoolbox"
    );
    assert_eq!(EncoderConfig::from_name("libx264").name, "libx264");
}

#[test]
fn from_name_unknown_falls_back_to_libx264() {
    let enc = EncoderConfig::from_name("totally_unknown");
    assert_eq!(enc.name, "libx264");
}

#[test]
fn encoder_configs_in_full() {
    let args = |enc: &EncoderConfig| enc.quality_args.join(" ");
    let enc = EncoderConfig::nvenc();
    assert_eq!(enc.display_name, "NVIDIA NVENC");
    assert_eq!(args(&enc), "-cq 18 -preset p4");
    let enc = EncoderConfig::vaapi();
    assert_eq!(enc.display_name, "VAAPI (AMD/Intel)");
    assert_eq!(args(&enc), "-qp 18");
    let enc = EncoderConfig::videotoolbox();
    assert_eq!(enc.display_name, "VideoToolbox (macOS)");
    assert_eq!(args(&enc), "-q:v 65");
    let enc = EncoderConfig::libx264();
    assert_eq!(enc.display_name, "libx264 (CPU)");
    assert_eq!(args(&enc), "-crf 18 -preset medium");
}

#[test]
fn known_encoder_is_what_its_name_stands_for() {
    for enc in [
        EncoderConfig::nvenc(),
        EncoderConfig::vaapi(),
        EncoderConfig::videotoolbox(),
        EncoderConfig::libx264(),
    ] {
        assert_eq!(EncoderConfig::from_name(&enc.name), enc);
    }
}

// ── Detection ─────────────────────────────────────────────────────────────

#[test]
fn encoder_detection_finds_nvenc() {
    let fake_output = " V....D h264_nvenc           NVIDIA NVENC H.264 encoder\n";
    assert!(encoder_present_in_text(fake_output, "h264_nvenc"));
    assert!(!encoder_present_in_text(fake_output, "h264_vaapi"));
}

#[test]
fn encoder_detection_finds_vaapi() {
    let fake_output = " V....D h264_vaapi           H.264/AVC (VAAPI)\n";
    assert!(encoder_present_in_text(fake_output, "h264_vaapi"));
    assert!(!encoder_present_in_text(fake_output, "h264_nvenc"));
}

#[test]
fn encoder_detection_no_hw_encoder() {
    let fake_output = " V....D libx264              libx264 H.264 / AVC / MPEG-4 AVC\n";
    assert!(!encoder_present_in_text(fake_output, "h264_nvenc"));
    assert!(!encoder_present_in_text(fake_output, "h264_vaapi"));
    assert!(!encoder_present_in_text(fake_output, "h264_videotoolbox"));
}

#[test]
fn encoder_detection_no_partial_match() {
    // "h264_nvenc_extra" is not "h264_nvenc"
    let fake_output = " V....D h264_nvenc_extra  something\n";
    assert!(!encoder_present_in_text(fake_output, "h264_nvenc"));
}

#[test]
fn encoder_detection_at_end_of_line() {
    assert!(encoder_present_in_text(" V h264_nvenc\n", "h264_nvenc"));
    assert!(!encoder_present_in_text(" V h264_nvenc", "h264_nvenc"));
    assert!(!encoder_present_in_text("h264_nvenc \n", "h264_nvenc"));
}

#[test]
fn best_encoder_goes_by_rank_not_by_place() {
    let all = " V h264_videotoolbox x\n V libx264 x\n V h264_vaapi x\n V h264_nvenc x\n";
    assert_eq!(detect_best_encoder(all), EncoderConfig::nvenc());
    let two = " V h264_videotoolbox x\n V h264_vaapi x\n";
    assert_eq!(detect_best_encoder(two), EncoderConfig::vaapi());
    assert_eq!(
        detect_best_encoder(" V h264_videotoolbox x\n"),
        EncoderConfig::videotoolbox()
    );
    assert_eq!(detect_best_encoder(""), EncoderConfig::libx264());
}

#[test]
fn encoders_command() {
    let ffmpeg = "/usr/bin/ffmpeg".to_owned();
    let cmd = build_encoders_command(&ffmpeg);
    let args: Vec<&str> = cmd
        .args
        .iter()
        .map(|a| match a {
            Arg::Text(s) => s.as_str(),
            Arg::File(f) => f.as_str(),
        })
        .collect();
    assert_eq!(cmd.program, "/usr/bin/ffmpeg");
    assert_eq!(args, ["-encoders", "-hide_banner"]);
}

// ── Binaries ──────────────────────────────────────────────────────────────

#[test]
fn each_missing_binary_has_its_error() {
    let both = FfmpegBinaries::locate(Some("a"), Some("b")).unwrap();
    assert_eq!((both.ffmpeg, both.ffprobe), ("a", "b"));
    assert!(matches!(
        FfmpegBinaries::<&str>::locate(None, None),
        Err(LimitcutError::FfmpegNotFound)
    ));
    assert!(matches!(
        FfmpegBinaries::locate(None, Some("b")),
        Err(LimitcutError::FfmpegNotFound)
    ));
    assert!(matches!(
        FfmpegBinaries::locate(Some("a"), None),
        Err(LimitcutError::FfprobeNotFound)
    ));
}
