use std::path::{Path, PathBuf};

use limitcut::cli::{Args, BlurRegion};
use limitcut::config::{Config, DiscordVideoMode};
use limitcut::error::{exit_code, LimitcutError};
use limitcut::ffmpeg::concat::{
    build_ffmpeg_command, build_single_input_ffmpeg_command, ConcatResult,
};
use limitcut::ffmpeg::command::Arg;
use limitcut::ffmpeg::detect::EncoderConfig;
use limitcut::instapost::ValidatedInstapostJson;
use limitcut::json_input::ValidatedJson;
use limitcut::listing::DirEntry;
use limitcut::overlap::correlate::CorrelationResult;
use limitcut::paths::{OutputPath, ParentInfo, PathInfo};
use limitcut::run::{
    batch_summary, discord_output_height, discord_video_mode, discord_video_mode_label,
    discord_webhook_url, done_message, ensure_output_path, instapost_discord_webhook,
    instapost_should_consume, instapost_status_dir, instapost_video_effects, json_title,
    list_json_files, may_overwrite, overlap_hint, plan_single, requested_encoder, resolve_blurs,
    resolve_encoder, resolve_instapost_encoder, resolve_instapost_output_path,
    resolve_json_output_root, resolve_normal_output_path, select_mode, single_input_params,
    start_single, start_single_input, trim_message, validate_video_input, InstapostVideoEffects,
    Mode, Start, MODES,
};
use limitcut::binary64::Binary64;
use limitcut::timestamp::Timestamp;

fn secs(s: f64) -> Binary64 {
    Binary64 {
        bits: s.to_bits(),
    }
}

fn info(path: &str, exists: bool, is_file: bool) -> PathInfo<PathBuf> {
    let p = Path::new(path);
    PathInfo {
        path: p.to_path_buf(),
        text: path.to_owned(),
        exists,
        is_file,
        is_dir: exists && !is_file,
        file_name: p.file_name().and_then(|n| n.to_str()).map(str::to_owned),
        stem: p.file_stem().map(|n| n.to_string_lossy().into_owned()),
        parent: p.parent().map(|d| ParentInfo {
            path: d.to_path_buf(),
            text: d.display().to_string(),
            exists: true,
            is_dir: true,
        }),
    }
}

fn built(out: &OutputPath<'_, PathBuf>) -> PathBuf {
    match out.dir {
        Some(dir) => out.parts.iter().fold(dir.clone(), |p, part| p.join(part)),
        None => out.parts.iter().collect(),
    }
}

fn no_args() -> Args<PathBuf> {
    Args {
        pre_video: None,
        post_video: None,
        json: None,
        json_dir: None,
        instapost: None,
        watch_instapost: None,
        output: None,
        output_dir: None,
        overwrite: false,
        encoder: None,
        blur: Vec::new(),
        preview_blur: None,
        dry_run: false,
        fadein: None,
        fadeout: None,
        black_hold: None,
        title: None,
        verbose: false,
    }
}

fn path(p: &str) -> Option<PathBuf> {
    Some(PathBuf::from(p))
}

fn base_args() -> Args<PathBuf> {
    Args {
        json: path("pull.json"),
        ..no_args()
    }
}

fn instapost_args() -> Args<PathBuf> {
    Args {
        instapost: path("instapost.json"),
        ..no_args()
    }
}

fn two_videos() -> Args<PathBuf> {
    Args {
        pre_video: path("pre.mkv"),
        post_video: path("post.mkv"),
        ..no_args()
    }
}

// ── Modes ─────────────────────────────────────────────────────────────────

#[test]
fn run_rejects_invalid_mixed_input_modes() {
    let args = Args {
        json: path("pull.json"),
        ..two_videos()
    };
    let err = select_mode(&args).unwrap_err();
    assert!(matches!(err, LimitcutError::InvalidInputMode(_)));
}

#[test]
fn run_rejects_single_video_without_preview_blur() {
    let args = Args {
        pre_video: path("pre.mkv"),
        ..no_args()
    };
    let err = select_mode(&args).unwrap_err();
    assert!(matches!(err, LimitcutError::InvalidInputMode(_)));
    assert_eq!(err.message(), format!("Invalid input mode: {MODES}"));
}

#[test]
fn run_preview_blur_single_video_enters_preview_path() {
    let args = Args {
        pre_video: path("pre.mkv"),
        blur: vec![BlurRegion {
            x: 0,
            y: 0,
            width: 100,
            height: 100,
        }],
        preview_blur: Some(secs(1.0)),
        ..no_args()
    };
    match select_mode(&args) {
        Ok(Mode::Preview { pre, timestamp }) => {
            assert_eq!(pre, Path::new("pre.mkv"));
            assert_eq!(timestamp, secs(1.0));
        }
        other => panic!("{other:?}"),
    }
    let config = Config::default();
    let err = start_single_input(&info("pre.mkv", false, false), &args, &config).unwrap_err();
    assert!(!matches!(err, LimitcutError::InvalidInputMode(_)));
}

#[test]
fn every_mode_and_nothing_else() {
    let some = |b: bool, p: &str| if b { path(p) } else { None };
    let mut modes = 0;
    for bits in 0..128u32 {
        let on = |i: u32| bits & (1 << i) != 0;
        let args = Args {
            pre_video: some(on(0), "a"),
            post_video: some(on(1), "b"),
            json: some(on(2), "c"),
            json_dir: some(on(3), "d"),
            instapost: some(on(4), "e"),
            watch_instapost: some(on(5), "f"),
            preview_blur: if on(6) { Some(secs(1.0)) } else { None },
            ..no_args()
        };
        let inputs = bits & 63;
        match select_mode(&args) {
            Ok(mode) => {
                modes += 1;
                match mode {
                    Mode::Combine { pre, post } => {
                        assert_eq!(inputs, 3);
                        assert_eq!((pre, post), (&PathBuf::from("a"), &PathBuf::from("b")));
                    }
                    Mode::Preview { pre, .. } => {
                        assert_eq!(bits, 65);
                        assert_eq!(pre, Path::new("a"));
                    }
                    Mode::Json(p) => assert_eq!((inputs, p), (4, &PathBuf::from("c"))),
                    Mode::JsonDir(p) => assert_eq!((inputs, p), (8, &PathBuf::from("d"))),
                    Mode::Instapost(p) => assert_eq!((inputs, p), (16, &PathBuf::from("e"))),
                    Mode::WatchInstapost(p) => assert_eq!((inputs, p), (32, &PathBuf::from("f"))),
                }
            }
            Err(LimitcutError::InvalidInputMode(_)) => {}
            Err(other) => panic!("{other:?}"),
        }
    }
    assert_eq!(modes, 11);
}

// ── Metadata files ────────────────────────────────────────────────────────

fn pull(job: Option<&str>) -> ValidatedJson<PathBuf> {
    ValidatedJson {
        json_path: PathBuf::from("pull.json"),
        started_at: Timestamp::parse("2026-04-24T07:55:31Z").unwrap(),
        encounter: "Deltascape V1.0".to_owned(),
        job: job.map(str::to_owned),
        recording: PathBuf::from("full.mkv"),
        replay_buffer: PathBuf::from("pre.mkv"),
    }
}

#[test]
fn titles_of_metadata_files() {
    let with_job = pull(Some("BLM"));
    let without = pull(None);
    assert_eq!(json_title(&with_job, None, true), "Deltascape V1.0/BLM POV");
    assert_eq!(
        json_title(&with_job, Some("Clear!/Week 1"), true),
        "Deltascape V1.0/BLM POV/Clear!/Week 1"
    );
    assert_eq!(json_title(&without, None, true), "Deltascape V1.0");
    assert_eq!(
        json_title(&without, Some("Clear!"), true),
        "Deltascape V1.0/Clear!"
    );
    assert_eq!(json_title(&with_job, None, false), "Deltascape V1.0");
    assert_eq!(json_title(&with_job, Some("Clear!"), false), "Clear!");
}

fn entry(name: &[u8], is_file: bool) -> DirEntry<PathBuf> {
    let text = String::from_utf8_lossy(name).into_owned();
    DirEntry {
        info: info(&text, true, is_file),
        name: name.to_vec(),
    }
}

#[test]
fn json_files_of_a_directory() {
    let entries = vec![
        entry(b"b.json", true),
        entry(b"c.JsOn", true),
        entry(b".json", true),
        entry(b"a.json", true),
        entry(b"dir.json", false),
        entry(b"a.json.tmp", true),
        entry(b"json", true),
        entry(b"ajson", true),
        entry(b"\xff.json", true),
        entry(b"..json", true),
    ];
    let dir = info("/obs", true, false);
    let order = list_json_files(&dir, Ok(&entries)).unwrap();
    assert_eq!(order, [9, 3, 0, 1, 8]);
    for e in &entries {
        let by_path = e.info.is_file
            && Path::new(&e.info.text)
                .extension()
                .is_some_and(|ext| ext.eq_ignore_ascii_case("json"));
        let one = vec![entry(&e.name, e.info.is_file)];
        assert_eq!(list_json_files(&dir, Ok(&one)).is_ok(), by_path);
    }
}

#[test]
fn json_directory_errors() {
    let none: Vec<DirEntry<PathBuf>> = Vec::new();
    assert!(matches!(
        list_json_files(&info("/obs", false, false), Ok(&none)),
        Err(LimitcutError::JsonDirNotFound(p)) if p == "/obs"
    ));
    assert!(matches!(
        list_json_files(&info("/obs", true, true), Err("boom")),
        Err(LimitcutError::JsonDirNotADir(p)) if p == "/obs"
    ));
    let dir = info("/obs", true, false);
    assert!(matches!(
        list_json_files(&dir, Err("boom")),
        Err(LimitcutError::JsonDirReadFailed { path, source }) if path == "/obs" && source == "boom"
    ));
    assert!(matches!(
        list_json_files(&dir, Ok(&vec![entry(b"a.txt", true)])),
        Err(LimitcutError::NoJsonFilesFound(p)) if p == "/obs"
    ));
}

#[test]
fn batch_summaries() {
    assert_eq!(batch_summary(3, 1), "Batch complete: 3/4 succeeded");
    assert_eq!(batch_summary(0, 0), "Batch complete: 0/0 succeeded");
    assert_eq!(
        batch_summary(usize::MAX, 1),
        "Batch complete: 18446744073709551615/18446744073709551616 succeeded"
    );
}

// ── Inputs and outputs ────────────────────────────────────────────────────

#[test]
fn resolve_normal_output_path_uses_cli_output_dir() {
    let args = Args {
        output_dir: path("/tmp/out"),
        ..two_videos()
    };
    let config = Config::default();
    let pre = info("pre.mkv", true, true);
    let output = resolve_normal_output_path(&args, &config, &pre);
    assert_eq!(built(&output), PathBuf::from("/tmp/out/pre_combined.mp4"));
}

#[test]
fn resolve_normal_output_path_prefers_explicit_output() {
    let args = Args {
        output: path("out.mp4"),
        ..two_videos()
    };
    let config = Config::default();
    let pre = info("pre.mkv", true, true);
    let output = resolve_normal_output_path(&args, &config, &pre);
    assert_eq!(built(&output), PathBuf::from("out.mp4"));
}

#[test]
fn resolve_normal_output_path_falls_back() {
    let args = two_videos();
    let config = Config {
        output_dir: path("/cfg/out"),
        ..Config::default()
    };
    let pre = info("/rec/pre.mkv", true, true);
    assert_eq!(
        built(&resolve_normal_output_path(&args, &config, &pre)),
        PathBuf::from("/cfg/out/pre_combined.mp4")
    );
    assert_eq!(
        built(&resolve_normal_output_path(&args, &Config::default(), &pre)),
        PathBuf::from("/rec/pre_combined.mp4")
    );
}

#[test]
fn resolve_json_output_root_prefers_cli_dir_then_config_then_json_parent() {
    let here = PathBuf::from(".");
    let json = info("meta/pull.json", true, true);
    let args = Args {
        json: path("meta/pull.json"),
        output_dir: path("/tmp/out"),
        ..no_args()
    };
    let config = Config::default();
    let root = resolve_json_output_root(&args, &config, &json, &here);
    assert_eq!(*root, PathBuf::from("/tmp/out"));

    let cfg = Config {
        output_dir: Some(PathBuf::from("/cfg/out")),
        ..Config::default()
    };
    let args = base_args();
    let root = resolve_json_output_root(&args, &cfg, &json, &here);
    assert_eq!(*root, PathBuf::from("/cfg/out"));

    let root = resolve_json_output_root(&args, &config, &json, &here);
    assert_eq!(*root, PathBuf::from("meta"));

    let no_parent = info("/", true, false);
    let root = resolve_json_output_root(&args, &config, &no_parent, &here);
    assert_eq!(*root, PathBuf::from("."));
}

#[test]
fn resolve_instapost_output_path_prefers_explicit_then_cli_dir_then_config_then_json_parent() {
    let validated = ValidatedInstapostJson {
        json_path: PathBuf::from("meta/instapost.json"),
        started_at: Timestamp::parse("2026-06-02T19:07:02+02:00").unwrap(),
        replay_buffer: PathBuf::from("meta/Replay.mkv"),
        job: Some("RPR".to_owned()),
        encounter: Some("Solution Nine".to_owned()),
        territory_name: None,
        territory_type: Some(1185),
        is_in_combat: Some(false),
        player_name: None,
    };
    let here = PathBuf::from(".");
    let json = info("meta/instapost.json", true, true);
    let resolve = |args: &Args<PathBuf>, config: &Config<PathBuf>| {
        built(&resolve_instapost_output_path(
            args, config, &validated, &json, &here,
        ))
    };

    let args = Args {
        instapost: path("meta/instapost.json"),
        output: path("out.mp4"),
        ..no_args()
    };
    assert_eq!(resolve(&args, &Config::default()), PathBuf::from("out.mp4"));

    let args = Args {
        instapost: path("meta/instapost.json"),
        output_dir: path("/tmp/out"),
        ..no_args()
    };
    assert_eq!(
        resolve(&args, &Config::default()),
        PathBuf::from("/tmp/out/instapost/2026-06-02/Solution_Nine/RPR/19-07-02.mp4")
    );

    let cfg = Config {
        output_dir: Some(PathBuf::from("/cfg/out")),
        ..Config::default()
    };
    assert_eq!(
        resolve(&instapost_args(), &cfg),
        PathBuf::from("/cfg/out/instapost/2026-06-02/Solution_Nine/RPR/19-07-02.mp4")
    );

    assert_eq!(
        resolve(&instapost_args(), &Config::default()),
        PathBuf::from("meta/instapost/2026-06-02/Solution_Nine/RPR/19-07-02.mp4")
    );
}

#[test]
fn ensure_output_path_rejects_parent_file() {
    let mut output = info("/tmp/not_a_dir/out.mp4", false, false);
    let parent = output.parent.as_mut().unwrap();
    parent.exists = true;
    parent.is_dir = false;
    let err = ensure_output_path(&output, false).unwrap_err();
    assert!(matches!(
        err,
        LimitcutError::OutputDirNotADirectory(p) if p == "/tmp/not_a_dir"
    ));
}

#[test]
fn ensure_output_path_edges() {
    let there = info("/tmp/out.mp4", true, true);
    assert!(matches!(
        ensure_output_path(&there, false),
        Err(LimitcutError::OutputExists(p)) if p == "/tmp/out.mp4"
    ));
    assert_eq!(
        ensure_output_path(&there, true).unwrap(),
        Some(&PathBuf::from("/tmp"))
    );
    let mut new = info("/tmp/new/out.mp4", false, false);
    new.parent.as_mut().unwrap().exists = false;
    new.parent.as_mut().unwrap().is_dir = false;
    assert_eq!(
        ensure_output_path(&new, false).unwrap(),
        Some(&PathBuf::from("/tmp/new"))
    );
    let bare = info("out.mp4", false, false);
    assert_eq!(ensure_output_path(&bare, false).unwrap(), None);
    let root = info("/", false, false);
    assert_eq!(ensure_output_path(&root, false).unwrap(), None);
}

#[test]
fn validate_video_input_rejects_missing_file() {
    let err = validate_video_input(&info("/does/not/exist.mkv", false, false)).unwrap_err();
    assert!(matches!(err, LimitcutError::InputNotFound(_)));
    let err = validate_video_input(&info("/tmp", true, false)).unwrap_err();
    assert!(matches!(err, LimitcutError::InputNotAFile(_)));
    assert!(validate_video_input(&info("/tmp/a", true, true)).is_ok());
}

#[test]
fn overwriting() {
    let yes = Config {
        overwrite: Some(true),
        ..Config::<PathBuf>::default()
    };
    let no = Config {
        overwrite: Some(false),
        ..Config::<PathBuf>::default()
    };
    let flag = Args {
        overwrite: true,
        ..no_args()
    };
    assert!(may_overwrite(&flag, &no));
    assert!(may_overwrite(&no_args(), &yes));
    assert!(!may_overwrite(&no_args(), &no));
    assert!(!may_overwrite(&no_args(), &Config::default()));
}

// ── Settings ──────────────────────────────────────────────────────────────

const A: BlurRegion = BlurRegion {
    x: 1,
    y: 2,
    width: 3,
    height: 4,
};
const B: BlurRegion = BlurRegion {
    x: 5,
    y: 6,
    width: 7,
    height: 8,
};

#[test]
fn blurs_of_the_command_line_replace_those_of_the_configuration() {
    let config = Config {
        blur: vec![B],
        ..Config::<PathBuf>::default()
    };
    let args = Args {
        blur: vec![A],
        ..no_args()
    };
    assert_eq!(*resolve_blurs(&args, &config), [A]);
    assert_eq!(*resolve_blurs(&no_args(), &config), [B]);
}

#[test]
fn encoders() {
    let config = Config {
        encoder: Some("nvenc".to_owned()),
        ..Config::<PathBuf>::default()
    };
    let args = Args {
        encoder: Some("h264_vaapi".to_owned()),
        ..no_args()
    };
    assert_eq!(requested_encoder(&args, &config), Some("h264_vaapi"));
    assert_eq!(requested_encoder(&no_args(), &config), Some("nvenc"));
    assert_eq!(requested_encoder(&no_args(), &Config::default()), None);
    let list = " V h264_videotoolbox x\n";
    assert_eq!(resolve_encoder(Some("nvenc"), list), EncoderConfig::nvenc());
    assert_eq!(
        resolve_encoder(Some("h264_vaapi"), list),
        EncoderConfig::vaapi()
    );
    assert_eq!(resolve_encoder(Some("h265"), list), EncoderConfig::libx264());
    assert_eq!(resolve_encoder(None, list), EncoderConfig::videotoolbox());
}

// ── Starting ──────────────────────────────────────────────────────────────

#[test]
fn starts() {
    let ok = info("a.mkv", true, true);
    let gone = info("gone.mkv", false, false);
    let dir = info("dir.mkv", true, false);
    let args = two_videos();
    let config = Config::default();
    assert!(matches!(
        start_single(&gone, &dir, &args, &config),
        Err(LimitcutError::InputNotFound(p)) if p == "gone.mkv"
    ));
    assert!(matches!(
        start_single(&ok, &dir, &args, &config),
        Err(LimitcutError::InputNotAFile(p)) if p == "dir.mkv"
    ));
    assert!(matches!(
        start_single(&ok, &ok, &args, &config),
        Ok(Start::Encode { blurs }) if blurs.is_empty()
    ));
    let preview = Args {
        preview_blur: Some(secs(12.5)),
        ..two_videos()
    };
    assert!(matches!(
        start_single(&ok, &ok, &preview, &config),
        Err(LimitcutError::PreviewBlurWithoutRegions)
    ));
    assert!(matches!(
        start_single_input(&dir, &preview, &config),
        Err(LimitcutError::InputNotAFile(_))
    ));
    let blurred = Config {
        blur: vec![B],
        ..Config::default()
    };
    match start_single_input(&ok, &preview, &blurred) {
        Ok(Start::Preview { timestamp, blurs }) => {
            assert_eq!(timestamp, secs(12.5));
            assert_eq!(*blurs, [B]);
        }
        other => panic!("{other:?}"),
    }
}

#[test]
fn hint_for_videos_that_do_not_overlap() {
    assert_eq!(
        overlap_hint(&LimitcutError::SilentAudio),
        "Audio clip is silent \u{2014} cannot correlate silent audio\n\n\
         Hint: make sure both videos share overlapping audio. \
         The end of PRE_VIDEO and the start of POST_VIDEO must cover \
         the same audio segment."
    );
}

// ── Planning ──────────────────────────────────────────────────────────────

fn found(cut: f64) -> CorrelationResult {
    CorrelationResult {
        cut_point_secs: secs(cut),
        score: secs(1.0),
        pre_duration_secs: secs(cut + 1.0),
    }
}

#[test]
fn plan_by_default() {
    let plan = plan_single(&two_videos(), &Config::default(), &found(25.0), secs(300.0)).unwrap();
    assert_eq!(plan.cut_point_secs, secs(25.0));
    assert_eq!(plan.fadein, secs(1.0));
    assert_eq!(plan.fadeout, secs(1.0));
    assert_eq!(plan.black_hold, secs(0.0));
    assert_eq!(plan.pre_seek_secs, secs(0.0));
    assert_eq!(plan.estimated_total_secs, secs(325.0));
}

#[test]
fn plan_trims_a_long_hold() {
    let args = Args {
        black_hold: Some(secs(12.0)),
        fadein: Some(secs(2.5)),
        ..two_videos()
    };
    let config = Config {
        black_hold: Some(secs(99.0)),
        fadein: Some(secs(9.0)),
        fadeout: Some(secs(0.5)),
        ..Config::default()
    };
    let plan = plan_single(&args, &config, &found(25.0), secs(300.0)).unwrap();
    assert_eq!(plan.fadein, secs(2.5));
    assert_eq!(plan.fadeout, secs(0.5));
    assert_eq!(plan.black_hold, secs(4.0));
    assert_eq!(plan.pre_seek_secs, secs(8.0));
    assert_eq!(
        trim_message(&args, &config).unwrap(),
        "Auto-trimming black hold: 12.0s → 4.0s (seeking 8.0s into pre-video)"
    );
    assert_eq!(plan.estimated_total_secs, secs(317.0));

    let files = ["ffmpeg", "a", "b", "c"].map(PathBuf::from);
    let encoder = EncoderConfig::libx264();
    let params = plan.params(
        &files[0],
        &files[1],
        &files[2],
        &files[3],
        &encoder,
        &[A],
        Some("T"),
    );
    assert_eq!(params.title, Some("T"));
    assert_eq!(params.blurs, [A]);
    let cmd = build_ffmpeg_command(&params);
    let text = |i: usize| match &cmd.args[i] {
        Arg::Text(s) => s.as_str(),
        Arg::File(p) => p.to_str().unwrap(),
    };
    // what is read of the pre-video ends at the cut point: 8 + 17 = 25
    assert_eq!((text(2), text(3)), ("-ss", "8.000000"));
    assert_eq!((text(4), text(5)), ("-t", "17.000000"));
    assert_eq!((text(7), text(9)), ("a", "b"));
}

#[test]
fn plan_keeps_a_short_hold() {
    let args = Args {
        black_hold: Some(secs(4.0)),
        ..two_videos()
    };
    let plan = plan_single(&args, &Config::default(), &found(4.0), secs(0.0)).unwrap();
    assert_eq!(plan.black_hold, secs(4.0));
    assert_eq!(plan.pre_seek_secs, secs(0.0));
    assert_eq!(trim_message(&args, &Config::default()), None);
}

#[test]
fn hold_beyond_the_cut_point() {
    let config = Config {
        black_hold: Some(secs(5.26)),
        ..Config::default()
    };
    let err = plan_single(&two_videos(), &config, &found(5.25), secs(1.0)).unwrap_err();
    assert_eq!(
        err.message(),
        "--black-hold (5.3s) exceeds the pre-video cut point (5.2s). \
         Use a shorter --black-hold value."
    );
    assert_eq!(exit_code(Some(&err)), 1);
}

#[test]
fn done_messages() {
    let done = |duration: f64, encode: f64| {
        done_message(
            "out.mp4",
            secs(duration),
            &ConcatResult {
                encode_time: secs(encode),
            },
        )
    };
    assert_eq!(
        done(325.2, 12.34),
        "Done. Output: out.mp4 (5:25 min, encoded in 12.3s)"
    );
    for (d, e) in [
        (0.0, 0.05),
        (0.0, 0.06),
        (9.4, 1.0),
        (59.7, 0.25),
        (60.0, 59.96),
        (61.5, 2.0),
        (62.5, 2.0),
        (3599.49, 100.0),
        (-0.3, 0.0),
        (-61.0, 0.0),
        (-60.0, 0.0),
        (-90.6, 0.0),
    ] {
        assert_eq!(
            done(d, e),
            format!(
                "Done. Output: out.mp4 ({:.0}:{:02.0} min, encoded in {:.1}s)",
                (d / 60.0f64).floor(),
                d % 60.0,
                e
            )
        );
    }
}

// ── Exit codes ────────────────────────────────────────────────────────────

#[test]
fn exit_code_marks_json_validation_as_user_error() {
    let err = LimitcutError::JsonNotFound("missing.json".to_owned());
    assert_eq!(exit_code(Some(&err)), 1);
}

#[test]
fn exit_code_marks_instapost_watch_validation_as_user_error() {
    let err = LimitcutError::InstapostWatchDirNotFound("missing-dir".to_owned());
    assert_eq!(exit_code(Some(&err)), 1);
}

#[test]
fn exit_code_marks_processing_failures_as_processing_error() {
    let err = LimitcutError::ConcatFailed {
        stderr: "boom".to_owned(),
    };
    assert_eq!(exit_code(Some(&err)), 2);
    assert_eq!(exit_code(None), 2);
}

// ── InstaPost ─────────────────────────────────────────────────────────────

#[test]
fn discord_webhook_url_requires_enable_flag() {
    let disabled = Config {
        discord_webhook_url: Some("https://discord.example/test".to_owned()),
        discord_enabled: Some(false),
        ..Config::<PathBuf>::default()
    };
    assert!(discord_webhook_url(&disabled).is_none());

    let enabled = Config {
        discord_webhook_url: Some("https://discord.example/test".to_owned()),
        discord_enabled: Some(true),
        ..Config::<PathBuf>::default()
    };
    assert_eq!(
        discord_webhook_url(&enabled),
        Some("https://discord.example/test")
    );
    let unset = Config {
        discord_enabled: None,
        ..enabled
    };
    assert!(discord_webhook_url(&unset).is_none());
}

#[test]
fn discord_video_mode_defaults_to_720p() {
    assert_eq!(
        discord_video_mode(&Config::<PathBuf>::default()),
        DiscordVideoMode::P720
    );

    let config = Config {
        discord_video_mode: Some(DiscordVideoMode::P1080),
        ..Config::<PathBuf>::default()
    };
    assert_eq!(discord_video_mode(&config), DiscordVideoMode::P1080);
    assert_eq!(discord_video_mode_label(DiscordVideoMode::P720), "720p");
    assert_eq!(discord_output_height(DiscordVideoMode::P1080), 1080);
    assert_eq!(discord_video_mode_label(DiscordVideoMode::P1080), "1080p");
    assert_eq!(discord_output_height(DiscordVideoMode::P720), 720);
}

#[test]
fn instapost_encoder_uses_discord_profile() {
    let args = instapost_args();
    let config = Config::default();
    let default = resolve_instapost_encoder(&args, &config, DiscordVideoMode::P720);
    assert_eq!(default.name, "libx264");
    assert_eq!(default.display_name, "libx264 (Discord 720p profile)");

    let config = Config {
        encoder: Some("h264_nvenc".to_owned()),
        ..Config::default()
    };
    let with_override = resolve_instapost_encoder(&args, &config, DiscordVideoMode::P1080);
    assert_eq!(with_override.name, "libx264");
    assert_eq!(with_override.display_name, "libx264 (Discord 1080p profile)");

    let args = Args {
        encoder: Some("h264_vaapi".to_owned()),
        ..instapost_args()
    };
    let asked_for = resolve_instapost_encoder(&args, &config, DiscordVideoMode::P720);
    assert_eq!(asked_for.name, "libx264");
    assert_eq!(asked_for.display_name, "libx264 (Discord 720p profile)");
}

#[test]
fn instapost_video_is_blurred_and_scaled() {
    let files = ["ffmpeg", "in.mkv", "out.mp4"].map(PathBuf::from);
    let encoder = EncoderConfig::discord_1080p();
    let params = |duration, mode| {
        single_input_params(
            &files[0], &files[1], &files[2], duration, &encoder, &[A], mode,
        )
    };
    let full = params(secs(42.5), DiscordVideoMode::P1080);
    assert_eq!(full.estimated_total_secs, secs(42.5));
    assert_eq!(full.fadein, secs(0.0));
    assert_eq!(full.fadeout, secs(0.0));
    assert_eq!(full.black_hold, secs(0.0));
    assert_eq!(full.input_seek_secs, secs(0.0));
    assert_eq!(full.title, None);
    assert_eq!(full.output_height, Some(1080));
    assert_eq!(full.blurs, [A]);
    assert_eq!((full.input, full.output), (&files[1], &files[2]));

    let small = params(secs(-1.0), DiscordVideoMode::P720);
    assert_eq!(small.estimated_total_secs, secs(0.0));
    assert_eq!(small.output_height, Some(720));
    let graph = build_single_input_ffmpeg_command(&small)
        .args
        .into_iter()
        .find_map(|arg| match arg {
            Arg::Text(s) if s.contains(";") => Some(s),
            _ => None,
        })
        .unwrap();
    assert!(graph.ends_with("[cv1]scale=-2:720[v]"));
    assert!(!graph.contains("fade"));
    assert!(!graph.contains("drawtext"));
}

#[test]
fn instapost_video_effects_disable_fades_and_black_hold() {
    assert_eq!(
        instapost_video_effects(),
        InstapostVideoEffects {
            fadein: secs(0.0),
            fadeout: secs(0.0),
            black_hold: secs(0.0),
        }
    );
}

#[test]
fn instapost_discord_upload_skips_preview_and_dry_run() {
    let config = Config {
        discord_webhook_url: Some("https://discord.example/test".to_owned()),
        discord_enabled: Some(true),
        ..Config::<PathBuf>::default()
    };

    let preview_args = Args {
        blur: vec!["0:0:10:10".parse().unwrap()],
        preview_blur: Some(secs(1.0)),
        ..instapost_args()
    };
    assert!(instapost_discord_webhook(&preview_args, &config).is_none());

    let dry_run_args = Args {
        dry_run: true,
        ..instapost_args()
    };
    assert!(instapost_discord_webhook(&dry_run_args, &config).is_none());

    let normal_args = instapost_args();
    assert_eq!(
        instapost_discord_webhook(&normal_args, &config),
        Some("https://discord.example/test")
    );
}

#[test]
fn instapost_consumption_skips_preview_and_dry_run() {
    let preview_args = Args {
        blur: vec!["0:0:10:10".parse().unwrap()],
        preview_blur: Some(secs(1.0)),
        ..instapost_args()
    };
    assert!(!instapost_should_consume(&preview_args));

    let dry_run_args = Args {
        dry_run: true,
        ..instapost_args()
    };
    assert!(!instapost_should_consume(&dry_run_args));

    assert!(instapost_should_consume(&instapost_args()));
}

#[test]
fn where_descriptors_go() {
    let dry_run = Args {
        dry_run: true,
        ..instapost_args()
    };
    assert_eq!(instapost_status_dir(&instapost_args(), true), Some("done"));
    assert_eq!(instapost_status_dir(&instapost_args(), false), Some("failed"));
    assert_eq!(instapost_status_dir(&dry_run, true), None);
    assert_eq!(instapost_status_dir(&dry_run, false), None);
}
