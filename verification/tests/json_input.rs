use std::path::{Path, PathBuf};

use limitcut::error::LimitcutError;
use limitcut::json_input::{
    derive_output_path, load_and_validate, normalize_encounter_name, unreadable_json,
    validate_fields, validate_json_path, video_path, PullToObsJson, ValidatedJson,
};
use limitcut::paths::{OutputPath, ParentInfo, PathInfo};
use limitcut::timestamp::Timestamp;

fn info(path: &Path, exists: bool, is_file: bool) -> PathInfo<PathBuf> {
    PathInfo {
        path: path.to_path_buf(),
        text: path.display().to_string(),
        exists,
        is_file,
        is_dir: exists && !is_file,
        file_name: path.file_name().and_then(|n| n.to_str()).map(str::to_owned),
        stem: path.file_stem().map(|n| n.to_string_lossy().into_owned()),
        parent: path.parent().map(|d| ParentInfo {
            path: d.to_path_buf(),
            text: d.display().to_string(),
            exists: true,
            is_dir: true,
        }),
    }
}

fn built(out: &OutputPath<'_, PathBuf>) -> PathBuf {
    let mut path = out.dir.cloned().unwrap_or_default();
    for part in &out.parts {
        path = path.join(part);
    }
    path
}

fn raw(json: &str) -> PullToObsJson {
    let value: serde_json::Value = serde_json::from_str(json).unwrap();
    let field = |name: &str| value.get(name).and_then(|v| v.as_str()).map(str::to_owned);
    PullToObsJson {
        started_at: field("started_at"),
        encounter: field("encounter"),
        job: field("job"),
        recording: field("recording"),
        replay_buffer: field("replay_buffer"),
    }
}

/// Validate a metadata file in `dir`, where these other files are.
fn load(dir: &Path, files: &[&str], json: &str) -> Result<ValidatedJson<PathBuf>, LimitcutError> {
    let path = info(&dir.join("pull.json"), true, true);
    validate_json_path(&path)?;
    let fields = validate_fields(&raw(json), &path.text)?;
    let here = PathBuf::from(".");
    let find = |name: &str| {
        let p = built(&video_path(&path, &here, name));
        let there = files.iter().any(|f| dir.join(f) == p);
        info(&p, there, there)
    };
    let recording = find(&fields.recording);
    let replay_buffer = find(&fields.replay_buffer);
    load_and_validate(path.clone(), fields, recording, replay_buffer)
}

fn stamp(text: &str) -> Timestamp {
    Timestamp::parse(text).unwrap()
}

#[test]
fn normalize_encounter_replaces_spaces_and_invalid_chars() {
    assert_eq!(
        normalize_encounter_name("Deltascape V1.0"),
        "Deltascape_V1.0"
    );
    assert_eq!(
        normalize_encounter_name("Boss: Name/Phase 1"),
        "Boss_NamePhase_1"
    );
}

#[test]
fn normalize_encounter_collapses_separators() {
    assert_eq!(normalize_encounter_name("  A   B  "), "A_B");
    assert_eq!(normalize_encounter_name("___A___"), "A");
}

#[test]
fn normalize_encounter_edges() {
    assert_eq!(normalize_encounter_name(".."), "..");
    assert_eq!(normalize_encounter_name("<.>"), ".");
    assert_eq!(normalize_encounter_name(""), "");
    assert_eq!(normalize_encounter_name("<>:\"|?*///"), "");
    assert_eq!(normalize_encounter_name("a_ / _b"), "a_b");
    assert_eq!(normalize_encounter_name("a\tb\u{3000}c\u{7f}d\u{0}"), "a_b_cd");
    assert_eq!(normalize_encounter_name("\u{e9}t\u{e9} \u{96ea}"), "\u{e9}t\u{e9}_\u{96ea}");
    assert_eq!(normalize_encounter_name("\\a\\"), "a");
    assert_eq!(normalize_encounter_name(":_ x _:"), "x");
}

#[test]
fn normalized_name_is_safe_and_kept() {
    for name in ["  A   B  ", "Boss: Name/Phase 1", "x\u{85}y", "__", "a__b_ _c"] {
        let safe = normalize_encounter_name(name);
        assert!(!safe.contains("__") && !safe.starts_with('_') && !safe.ends_with('_'));
        assert!(!safe.chars().any(|c| "/\\:*?\"<>|".contains(c)
            || c.is_whitespace()
            || c.is_control()));
        assert_eq!(normalize_encounter_name(&safe), safe);
    }
}

#[test]
fn derive_output_path_uses_encounter_subdir_and_timestamp() {
    let json = ValidatedJson {
        json_path: PathBuf::from("/tmp/input.json"),
        started_at: stamp("2026-04-24T07:55:31.746842+02:00"),
        encounter: "Deltascape V1.0".to_owned(),
        job: None,
        recording: PathBuf::from("recording.mkv"),
        replay_buffer: PathBuf::from("replay.mkv"),
    };

    let base = PathBuf::from("/out");
    let output = derive_output_path(&json, &base);
    assert_eq!(
        built(&output),
        PathBuf::from("/out/2026-04-24/Deltascape_V1.0/07-55-31.mp4")
    );
}

#[test]
fn derive_output_path_includes_job_subfolder() {
    let json = ValidatedJson {
        json_path: PathBuf::from("/tmp/input.json"),
        started_at: stamp("2026-04-24T07:55:31.746842+02:00"),
        encounter: "Deltascape V1.0".to_owned(),
        job: Some("BLM".to_owned()),
        recording: PathBuf::from("recording.mkv"),
        replay_buffer: PathBuf::from("replay.mkv"),
    };

    let base = PathBuf::from("/out");
    let output = derive_output_path(&json, &base);
    assert_eq!(
        built(&output),
        PathBuf::from("/out/2026-04-24/Deltascape_V1.0/BLM/07-55-31.mp4")
    );
}

#[test]
fn derive_output_path_makes_a_safe_folder_of_the_job() {
    let mut json = ValidatedJson {
        json_path: PathBuf::from("/tmp/input.json"),
        started_at: stamp("2026-04-24T07:55:31Z"),
        encounter: "A".to_owned(),
        job: Some("Black Mage/BLM".to_owned()),
        recording: PathBuf::from("recording.mkv"),
        replay_buffer: PathBuf::from("replay.mkv"),
    };
    let base = PathBuf::from("/out");
    assert_eq!(
        derive_output_path(&json, &base).parts,
        ["2026-04-24", "A", "Black_MageBLM", "07-55-31.mp4"]
    );
    json.job = Some("<>".to_owned());
    assert_eq!(
        derive_output_path(&json, &base).parts,
        ["2026-04-24", "A", "07-55-31.mp4"]
    );
    json.job = Some(" .. ".to_owned());
    assert_eq!(
        derive_output_path(&json, &base).parts,
        ["2026-04-24", "A", "..", "07-55-31.mp4"]
    );
}

#[test]
fn json_input_load_and_validate_success() {
    let dir = Path::new("/obs");
    let validated = load(
        dir,
        &["full.mkv", "pre.mkv"],
        r#"{
  "started_at": "2026-04-24T07:55:31.746842+02:00",
  "encounter": "Deltascape V1.0",
  "job": "BLM",
  "recording": "full.mkv",
  "replay_buffer": "pre.mkv"
}"#,
    )
    .unwrap();
    assert_eq!(validated.encounter, "Deltascape V1.0");
    assert_eq!(validated.job, Some("BLM".to_owned()));
    assert_eq!(validated.recording, dir.join("full.mkv"));
    assert_eq!(validated.replay_buffer, dir.join("pre.mkv"));
    assert_eq!(validated.json_path, dir.join("pull.json"));
    assert_eq!(validated.started_at.date, "2026-04-24");
    assert_eq!(validated.started_at.clock, "07-55-31");
}

#[test]
fn load_and_validate_success_without_job() {
    let dir = Path::new("/obs");
    let validated = load(
        dir,
        &["full.mkv", "pre.mkv"],
        r#"{
  "started_at": "2026-04-24T07:55:31.746842+02:00",
  "encounter": "Deltascape V1.0",
  "recording": "full.mkv",
  "replay_buffer": "pre.mkv"
}"#,
    )
    .unwrap();
    assert_eq!(validated.encounter, "Deltascape V1.0");
    assert!(validated.job.is_none());
    assert_eq!(validated.recording, dir.join("full.mkv"));
    assert_eq!(validated.replay_buffer, dir.join("pre.mkv"));
}

#[test]
fn load_and_validate_missing_field_errors() {
    let err = load(
        Path::new("/obs"),
        &[],
        r#"{
  "started_at": "2026-04-24T07:55:31.746842+02:00",
  "encounter": "Deltascape V1.0",
  "recording": "full.mkv"
}"#,
    )
    .unwrap_err();
    assert!(matches!(
        err,
        LimitcutError::JsonMissingField {
            field: "replay_buffer",
            ..
        }
    ));
}

#[test]
fn load_and_validate_empty_field_errors() {
    let err = load(
        Path::new("/obs"),
        &[],
        r#"{
  "started_at": "2026-04-24T07:55:31.746842+02:00",
  "encounter": "   ",
  "recording": "full.mkv",
  "replay_buffer": "pre.mkv"
}"#,
    )
    .unwrap_err();
    assert!(matches!(
        err,
        LimitcutError::JsonEmptyField {
            field: "encounter",
            ..
        }
    ));
}

#[test]
fn load_and_validate_invalid_datetime_errors() {
    let err = load(
        Path::new("/obs"),
        &["full.mkv", "pre.mkv"],
        r#"{
  "started_at": "not-a-date",
  "encounter": "Deltascape V1.0",
  "recording": "full.mkv",
  "replay_buffer": "pre.mkv"
}"#,
    )
    .unwrap_err();
    assert!(matches!(err, LimitcutError::JsonInvalidDatetime { .. }));
}

#[test]
fn load_and_validate_missing_video_errors() {
    let err = load(
        Path::new("/obs"),
        &["pre.mkv"],
        r#"{
  "started_at": "2026-04-24T07:55:31.746842+02:00",
  "encounter": "Deltascape V1.0",
  "recording": "full.mkv",
  "replay_buffer": "pre.mkv"
}"#,
    )
    .unwrap_err();
    assert!(matches!(err, LimitcutError::JsonVideoNotFound { .. }));
}

#[test]
fn load_and_validate_empty_normalized_name_errors() {
    let err = load(
        Path::new("/obs"),
        &["full.mkv", "pre.mkv"],
        r#"{
  "started_at": "2026-04-24T07:55:31.746842+02:00",
  "encounter": "<>:\"|?*///",
  "recording": "full.mkv",
  "replay_buffer": "pre.mkv"
}"#,
    )
    .unwrap_err();
    assert!(matches!(err, LimitcutError::JsonEncounterNameEmpty { .. }));
}

#[test]
fn fields_are_looked_at_in_order() {
    let check = |json: &str| match validate_fields(&raw(json), "p.json").unwrap_err() {
        LimitcutError::JsonMissingField { path, field } => {
            assert_eq!(path, "p.json");
            format!("missing {field}")
        }
        LimitcutError::JsonEmptyField { path, field } => {
            assert_eq!(path, "p.json");
            format!("empty {field}")
        }
        LimitcutError::JsonInvalidDatetime { path, value } => {
            assert_eq!(path, "p.json");
            format!("date {value}")
        }
        LimitcutError::JsonEncounterNameEmpty { path } => format!("name {path}"),
        other => panic!("{other:?}"),
    };
    assert_eq!(check("{}"), "missing started_at");
    assert_eq!(check(r#"{"started_at":""}"#), "empty started_at");
    assert_eq!(check(r#"{"started_at":"x"}"#), "missing encounter");
    assert_eq!(
        check(r#"{"started_at":"x","encounter":"e"}"#),
        "missing recording"
    );
    assert_eq!(
        check(r#"{"started_at":"x","encounter":"/","recording":"r","replay_buffer":"\t"}"#),
        "empty replay_buffer"
    );
    assert_eq!(
        check(r#"{"started_at":" x ","encounter":"/","recording":"r","replay_buffer":"b"}"#),
        "date x"
    );
    assert_eq!(
        check(
            r#"{"started_at":"2026-04-24T07:55:31Z","encounter":"/","recording":"r","replay_buffer":"b"}"#
        ),
        "name p.json"
    );
}

#[test]
fn fields_are_trimmed() {
    let fields = validate_fields(
        &raw(
            r#"{"started_at":" 2026-04-24T07:55:31Z\n","encounter":" E ","job":"  ","recording":" r ","replay_buffer":"\tb"}"#,
        ),
        "p.json",
    )
    .unwrap();
    assert_eq!(fields.encounter, "E");
    assert_eq!(fields.job, None);
    assert_eq!(fields.recording, "r");
    assert_eq!(fields.replay_buffer, "b");
    assert_eq!(fields.started_at.date, "2026-04-24");
}

#[test]
fn json_paths_and_videos() {
    let gone = info(Path::new("a.json"), false, false);
    assert_eq!(
        validate_json_path(&gone).unwrap_err().message(),
        "JSON file not found: a.json"
    );
    let dir = info(Path::new("a.json"), true, false);
    assert!(matches!(
        validate_json_path(&dir),
        Err(LimitcutError::JsonNotAFile(_))
    ));
    assert_eq!(
        unreadable_json("a.json", "boom").message(),
        "Failed to parse JSON file a.json: could not read file: boom"
    );
    let root = info(Path::new("/"), true, false);
    let here = PathBuf::from(".");
    assert_eq!(
        built(&video_path(&root, &here, "v.mkv")),
        PathBuf::from("./v.mkv")
    );
    assert_eq!(
        built(&video_path(&gone, &here, "v.mkv")),
        PathBuf::from("v.mkv")
    );
    let fields = || {
        validate_fields(
            &raw(r#"{"started_at":"2026-04-24T07:55:31Z","encounter":"E","recording":"r","replay_buffer":"b"}"#),
            "p.json",
        )
        .unwrap()
    };
    let ok = || info(Path::new("v"), true, true);
    let a_dir = || info(Path::new("d"), true, false);
    let missing = || info(Path::new("m"), false, false);
    assert!(load_and_validate(ok(), fields(), ok(), ok()).is_ok());
    assert!(matches!(
        load_and_validate(ok(), fields(), a_dir(), missing()),
        Err(LimitcutError::InputNotAFile(p)) if p == "d"
    ));
    assert!(matches!(
        load_and_validate(ok(), fields(), ok(), missing()),
        Err(LimitcutError::JsonVideoNotFound { json, video }) if json == "v" && video == "m"
    ));
    assert!(matches!(
        load_and_validate(ok(), fields(), ok(), a_dir()),
        Err(LimitcutError::InputNotAFile(p)) if p == "d"
    ));
}

// ── Timestamps ────────────────────────────────────────────────────────────

#[test]
fn timestamps_keep_their_time_zone() {
    let t = stamp("2026-06-02T00:07:02.8897222+02:00");
    assert_eq!((t.date.as_str(), t.clock.as_str()), ("2026-06-02", "00-07-02"));
    let t = stamp("1999-12-31 23:59:60z");
    assert_eq!((t.date.as_str(), t.clock.as_str()), ("1999-12-31", "23-59-60"));
    let t = stamp("0001-01-01t00:00:00-23:59");
    assert_eq!((t.date.as_str(), t.clock.as_str()), ("0001-01-01", "00-00-00"));
}

#[test]
fn timestamps_that_are_none() {
    for bad in [
        "",
        "2026-06-02",
        "2026-06-02T19:07:02",
        "2026-13-02T19:07:02Z",
        "2026-02-30T19:07:02Z",
        "2026-06-02T24:07:02Z",
        "2026-06-02T19:07:02Zx",
        " 2026-06-02T19:07:02Z",
        "2026/06/02T19:07:02Z",
    ] {
        assert!(Timestamp::parse(bad).is_none(), "{bad:?}");
    }
}
