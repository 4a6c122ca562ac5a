use std::path::{Path, PathBuf};

use limitcut::error::LimitcutError;
use limitcut::instapost::{
    derive_output_path, failure_marker_name, failure_marker_text, is_instapost_json_path,
    list_instapost_json_files, load_and_validate, name_step, status_file_name, validate_fields,
    InstapostJson, NameStep, ValidatedInstapostJson,
};
use limitcut::json_input::video_path;
use limitcut::listing::DirEntry;
use limitcut::paths::{OutputPath, ParentInfo, PathInfo};
use limitcut::timestamp::Timestamp;

fn info(path: &Path, exists: bool, is_file: bool) -> PathInfo<PathBuf> {
    PathInfo {
        path: path.to_path_buf(),
        text: path.display().to_string(),
        exists,
        is_file,
        is_dir: exists && !is_file,
        file_name: path.file_name().and_then(|n| n.to_str()).map(str::to_owned),
        stem: path.file_stem().map(|n| n.to_string_lossy().into_owned()),
        parent: path.parent().map(|d| ParentInfo {
            path: d.to_path_buf(),
            text: d.display().to_string(),
            exists: true,
            is_dir: true,
        }),
    }
}

fn built(out: &OutputPath<'_, PathBuf>) -> PathBuf {
    let mut path = out.dir.cloned().unwrap_or_default();
    for part in &out.parts {
        path = path.join(part);
    }
    path
}

fn raw(json: &str) -> InstapostJson {
    let value: serde_json::Value = serde_json::from_str(json).unwrap();
    let field = |name: &str| value.get(name).and_then(|v| v.as_str()).map(str::to_owned);
    InstapostJson {
        started_at: field("started_at"),
        replay_buffer: field("replay_buffer"),
        job: field("job"),
        encounter: field("encounter"),
        territory_name: field("territory_name"),
        territory_type: value
            .get("territory_type")
            .and_then(|v| v.as_u64())
            .map(|n| n as u32),
        is_in_combat: value.get("is_in_combat").and_then(|v| v.as_bool()),
        player_name: field("player_name"),
    }
}

/// Validate a descriptor in `dir`, where these other files are.
fn load(
    dir: &Path,
    files: &[&str],
    json: &str,
) -> Result<ValidatedInstapostJson<PathBuf>, LimitcutError> {
    let path = info(&dir.join("instapost_20260602_190702.json"), true, true);
    let fields = validate_fields(&raw(json), &path.text)?;
    let here = PathBuf::from(".");
    let p = built(&video_path(&path, &here, &fields.replay_buffer));
    let there = files.iter().any(|f| dir.join(f) == p);
    load_and_validate(path.clone(), fields, info(&p, there, there))
}

fn stamp() -> Timestamp {
    Timestamp::parse("2026-06-02T19:07:02.8897222+02:00").unwrap()
}

fn text(s: &str) -> Option<String> {
    Some(s.to_owned())
}

#[test]
fn instapost_load_and_validate_success() {
    let dir = Path::new("/obs");
    let validated = load(
        dir,
        &["Replay_2026-06-02_19-07-02.mkv"],
        r#"{
  "started_at": "2026-06-02T19:07:02.8897222+02:00",
  "replay_buffer": "Replay_2026-06-02_19-07-02.mkv",
  "job": "RPR",
  "encounter": "The Futures Rewritten",
  "territory_name": "Solution Nine",
  "territory_type": 1185,
  "is_in_combat": false,
  "player_name": "M'iu Bittermoon"
}"#,
    )
    .unwrap();
    assert_eq!(validated.job, Some("RPR".to_owned()));
    assert_eq!(validated.encounter, Some("The Futures Rewritten".to_owned()));
    assert_eq!(validated.territory_name, Some("Solution Nine".to_owned()));
    assert_eq!(validated.territory_type, Some(1185));
    assert_eq!(validated.player_name, Some("M'iu Bittermoon".to_owned()));
    assert_eq!(
        validated.replay_buffer,
        dir.join("Replay_2026-06-02_19-07-02.mkv")
    );
    assert_eq!(validated.is_in_combat, Some(false));
}

#[test]
fn load_and_validate_resolves_replay_path_relative_to_json_dir() {
    let nested = Path::new("/some/where/obs");
    let validated = load(
        nested,
        &["Replay_2026-06-02_19-07-02.mkv"],
        r#"{
  "started_at": "2026-06-02T19:07:02.8897222+02:00",
  "replay_buffer": "Replay_2026-06-02_19-07-02.mkv",
  "territory_type": 1185,
  "is_in_combat": false
}"#,
    )
    .unwrap();
    assert_eq!(
        validated.replay_buffer,
        nested.join("Replay_2026-06-02_19-07-02.mkv")
    );
}

#[test]
fn load_and_validate_accepts_null_encounter() {
    let validated = load(
        Path::new("/obs"),
        &["Replay.mkv"],
        r#"{
  "started_at": "2026-06-02T19:07:02.8897222+02:00",
  "replay_buffer": "Replay.mkv",
  "encounter": null,
  "territory_name": "Solution Nine",
  "territory_type": 1185,
  "is_in_combat": false
}"#,
    )
    .unwrap();
    assert_eq!(validated.encounter, None);
    assert_eq!(validated.display_label(), "Solution Nine");
}

#[test]
fn load_and_validate_accepts_null_territory_name() {
    let validated = load(
        Path::new("/obs"),
        &["Replay.mkv"],
        r#"{
  "started_at": "2026-06-02T19:07:02.8897222+02:00",
  "replay_buffer": "Replay.mkv",
  "encounter": null,
  "territory_name": null,
  "territory_type": 1185,
  "is_in_combat": false
}"#,
    )
    .unwrap();
    assert_eq!(validated.territory_name, None);
    assert_eq!(validated.display_label(), "territory-1185");
}

#[test]
fn instapost_fields_in_order() {
    let check = |json: &str| validate_fields(&raw(json), "p.json").unwrap_err();
    assert!(matches!(
        check("{}"),
        LimitcutError::JsonMissingField {
            field: "started_at",
            ..
        }
    ));
    assert!(matches!(
        check(r#"{"started_at":"x","replay_buffer":" "}"#),
        LimitcutError::JsonEmptyField {
            field: "replay_buffer",
            ..
        }
    ));
    assert!(matches!(
        check(r#"{"started_at":" x","replay_buffer":"b"}"#),
        LimitcutError::JsonInvalidDatetime { value, .. } if value == "x"
    ));
    let fields = validate_fields(
        &raw(r#"{"started_at":"2026-06-02T19:07:02Z","replay_buffer":" b ","job":" ","player_name":" P "}"#),
        "p.json",
    )
    .unwrap();
    assert_eq!(fields.replay_buffer, "b");
    assert_eq!(fields.job, None);
    assert_eq!(fields.player_name, text("P"));
    assert_eq!(fields.territory_type, None);
}

#[test]
fn instapost_video_must_be_a_file() {
    let json = r#"{"started_at":"2026-06-02T19:07:02Z","replay_buffer":"b"}"#;
    assert!(matches!(
        load(Path::new("/obs"), &[], json),
        Err(LimitcutError::JsonVideoNotFound { .. })
    ));
    let fields = validate_fields(&raw(json), "p.json").unwrap();
    assert!(matches!(
        load_and_validate(
            info(Path::new("p.json"), true, true),
            fields,
            info(Path::new("b"), true, false)
        ),
        Err(LimitcutError::InputNotAFile(p)) if p == "b"
    ));
}

#[test]
fn display_label_prefers_encounter_then_territory_then_id() {
    let base = ValidatedInstapostJson {
        json_path: PathBuf::from("instapost.json"),
        started_at: stamp(),
        replay_buffer: PathBuf::from("Replay.mkv"),
        job: Some("RPR".to_owned()),
        encounter: Some("The Futures Rewritten".to_owned()),
        territory_name: Some("Solution Nine".to_owned()),
        territory_type: Some(1185),
        is_in_combat: Some(false),
        player_name: Some("M'iu Bittermoon".to_owned()),
    };
    assert_eq!(base.display_label(), "The Futures Rewritten");

    let no_encounter = ValidatedInstapostJson {
        encounter: None,
        ..base.clone()
    };
    assert_eq!(no_encounter.display_label(), "Solution Nine");

    let id_fallback = ValidatedInstapostJson {
        encounter: None,
        territory_name: None,
        ..base.clone()
    };
    assert_eq!(id_fallback.display_label(), "territory-1185");

    let nothing = ValidatedInstapostJson {
        encounter: None,
        territory_name: None,
        territory_type: None,
        ..base
    };
    assert_eq!(nothing.display_label(), "territory-unknown");
}

#[test]
fn derive_output_path_uses_instapost_archive_layout() {
    let json = ValidatedInstapostJson {
        json_path: PathBuf::from("/tmp/instapost.json"),
        started_at: stamp(),
        replay_buffer: PathBuf::from("Replay.mkv"),
        job: Some("RPR".to_owned()),
        encounter: Some("The Futures Rewritten".to_owned()),
        territory_name: Some("Solution Nine".to_owned()),
        territory_type: Some(1185),
        is_in_combat: Some(false),
        player_name: Some("M'iu Bittermoon".to_owned()),
    };

    let base = PathBuf::from("/archive");
    let output = derive_output_path(&json, &base);
    assert_eq!(
        built(&output),
        PathBuf::from("/archive/instapost/2026-06-02/The_Futures_Rewritten/RPR/19-07-02.mp4")
    );
}

#[test]
fn derive_output_path_falls_back_when_label_normalizes_empty() {
    let json = ValidatedInstapostJson {
        json_path: PathBuf::from("/tmp/instapost.json"),
        started_at: stamp(),
        replay_buffer: PathBuf::from("Replay.mkv"),
        job: Some("<>".to_owned()),
        encounter: Some("<>:\"|?*///".to_owned()),
        territory_name: None,
        territory_type: Some(1185),
        is_in_combat: Some(false),
        player_name: None,
    };

    let base = PathBuf::from("/archive");
    let output = derive_output_path(&json, &base);
    assert_eq!(
        built(&output),
        PathBuf::from("/archive/instapost/2026-06-02/territory-1185/19-07-02.mp4")
    );
}

#[test]
fn default_title_omits_missing_job_cleanly() {
    let json = ValidatedInstapostJson {
        json_path: PathBuf::from("instapost.json"),
        started_at: stamp(),
        replay_buffer: PathBuf::from("Replay.mkv"),
        job: None,
        encounter: Some("Solution Nine".to_owned()),
        territory_name: None,
        territory_type: Some(1185),
        is_in_combat: Some(false),
        player_name: None,
    };

    assert_eq!(json.default_title(), "Solution Nine POV");
    let with_job = ValidatedInstapostJson {
        job: text("RPR"),
        ..json
    };
    assert_eq!(with_job.default_title(), "Solution Nine/RPR POV");
}

#[test]
fn instapost_path_matcher_ignores_tmp_files() {
    let dir = Path::new("/obs");
    let json = info(&dir.join("instapost_20260602_190702.json"), true, true);
    let tmp = info(&dir.join("instapost_20260602_190702.json.tmp"), true, true);

    assert!(is_instapost_json_path(&json));
    assert!(!is_instapost_json_path(&tmp));
}

#[test]
fn instapost_path_matcher_edges() {
    let file = |name: &str| is_instapost_json_path(&info(Path::new(name), true, true));
    assert!(file("instapost_.json"));
    assert!(!file("instapost.json"));
    assert!(!file("Instapost_1.json"));
    assert!(!file("instapost_1.JSON"));
    assert!(!file("x_instapost_1.json"));
    assert!(!is_instapost_json_path(&info(
        Path::new("instapost_1.json"),
        true,
        false
    )));
    let mut odd = info(Path::new("instapost_1.json"), true, true);
    odd.file_name = None;
    assert!(!is_instapost_json_path(&odd));
}

fn entry(name: &str) -> DirEntry<PathBuf> {
    DirEntry {
        info: info(&Path::new("/obs").join(name), true, true),
        name: name.as_bytes().to_vec(),
    }
}

#[test]
fn list_instapost_json_files_processes_backlog_in_sorted_order() {
    let entries = vec![
        entry("instapost_20260602_190703.json"),
        entry("instapost_20260602_190701.json"),
        entry("instapost_20260602_190702.json.tmp"),
        entry("pull_20260602_190702.json"),
    ];
    let dir = info(Path::new("/obs"), true, false);
    let order = list_instapost_json_files(&dir, Ok(&entries)).unwrap();
    let names: Vec<String> = order
        .iter()
        .map(|&i| entries[i].info.file_name.clone().unwrap())
        .collect();

    assert_eq!(
        names,
        vec![
            "instapost_20260602_190701.json",
            "instapost_20260602_190703.json",
        ]
    );
}

#[test]
fn listing_is_in_the_order_of_paths() {
    let names = [
        "instapost_b.json",
        "instapost_\u{e9}.json",
        "instapost_.json",
        "instapost_a.json",
        "instapost_a1.json",
        "instapost_a_1.json",
        "instapost_B.json",
        "instapost_\u{1F600}.json",
        "instapost_\u{ffff}.json",
    ];
    let entries: Vec<DirEntry<PathBuf>> = names.iter().map(|n| entry(n)).collect();
    let dir = info(Path::new("/obs"), true, false);
    let order = list_instapost_json_files(&dir, Ok(&entries)).unwrap();
    let listed: Vec<PathBuf> = order.iter().map(|&i| entries[i].info.path.clone()).collect();
    let mut sorted: Vec<PathBuf> = entries.iter().map(|e| e.info.path.clone()).collect();
    sorted.sort();
    assert_eq!(listed, sorted);
}

#[test]
fn listing_errors() {
    let none: Vec<DirEntry<PathBuf>> = Vec::new();
    let gone = info(Path::new("/obs"), false, false);
    let file = info(Path::new("/obs"), true, true);
    let dir = info(Path::new("/obs"), true, false);
    assert!(matches!(
        list_instapost_json_files(&gone, Ok(&none)),
        Err(LimitcutError::InstapostWatchDirNotFound(p)) if p == "/obs"
    ));
    assert!(matches!(
        list_instapost_json_files(&file, Err("boom")),
        Err(LimitcutError::InstapostWatchDirNotADir(p)) if p == "/obs"
    ));
    assert!(matches!(
        list_instapost_json_files(&dir, Err("boom")),
        Err(LimitcutError::InstapostWatchDirReadFailed { path, source }) if path == "/obs" && source == "boom"
    ));
    assert_eq!(
        list_instapost_json_files(&dir, Ok(&none)).unwrap(),
        Vec::<usize>::new()
    );
}

// ── What becomes of a descriptor ──────────────────────────────────────────

#[test]
fn status_names() {
    let name = "instapost_20260602_190702.json";
    assert_eq!(status_file_name(name, 0), name);
    assert_eq!(
        status_file_name(name, 1),
        "instapost_20260602_190702.1.json"
    );
    assert_eq!(
        status_file_name(name, 12),
        "instapost_20260602_190702.12.json"
    );
    assert_eq!(status_file_name("a.b.c", 3), "a.b.3.c");
    assert_eq!(status_file_name("plain", 3), "plain.3");
    assert_eq!(status_file_name(".json", 3), ".3.json");
    assert_eq!(status_file_name("dot.", 3), "dot.3.");
}

#[test]
fn status_names_differ() {
    for name in ["a.json", "plain", "a.1.json"] {
        let names: Vec<String> = (0..30).map(|i| status_file_name(name, i)).collect();
        for i in 0..names.len() {
            for j in 0..i {
                assert_ne!(names[i], names[j]);
            }
        }
    }
}

#[test]
fn first_free_name_is_taken() {
    let search = |taken: &[&str]| {
        let mut index = 0;
        loop {
            let name = status_file_name("a.json", index);
            match name_step(index, taken.contains(&name.as_str())) {
                NameStep::Try(next) => index = next,
                NameStep::Take(found) => return status_file_name("a.json", found),
                NameStep::Exhausted => panic!("no name left"),
            }
        }
    };
    assert_eq!(search(&[]), "a.json");
    assert_eq!(search(&["b.json", "a.1.json"]), "a.json");
    assert_eq!(search(&["a.json"]), "a.1.json");
    assert_eq!(search(&["a.json", "a.1.json", "a.3.json"]), "a.2.json");
    assert_eq!(name_step(u64::MAX, true), NameStep::Exhausted);
    assert_eq!(name_step(u64::MAX, false), NameStep::Take(u64::MAX));
}

#[test]
fn write_failure_marker_preserves_error_text() {
    assert_eq!(
        failure_marker_name("instapost_20260602_190702.json"),
        "instapost_20260602_190702.json.error.txt"
    );
    let contents = failure_marker_text("boom");
    assert!(contents.contains("boom"));
    assert_eq!(contents, "boom\n");
}
