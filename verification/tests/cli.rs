use std::path::{Path, PathBuf};

use limitcut::cli::{
    default_output_filename, default_output_path, default_preview_path, parse_encoder_name,
    BlurRegion,
};
use limitcut::error::LimitcutError;
use limitcut::paths::{OutputPath, ParentInfo, PathInfo};

fn info(path: &str) -> PathInfo<PathBuf> {
    let p = Path::new(path);
    PathInfo {
        path: p.to_path_buf(),
        text: path.to_owned(),
        exists: true,
        is_file: true,
        is_dir: false,
        file_name: p.file_name().and_then(|n| n.to_str()).map(str::to_owned),
        stem: p.file_stem().map(|n| n.to_string_lossy().into_owned()),
        parent: p.parent().map(|d| ParentInfo {
            path: d.to_path_buf(),
            text: d.display().to_string(),
            exists: true,
            is_dir: true,
        }),
    }
}

fn built(out: &OutputPath<'_, PathBuf>) -> PathBuf {
    let mut path = out.dir.cloned().unwrap_or_default();
    for part in &out.parts {
        path = path.join(part);
    }
    path
}

// ── BlurRegion parsing ────────────────────────────────────────────────────

#[test]
fn blur_region_valid() {
    let r: BlurRegion = "10:20:300:150".parse().unwrap();
    assert_eq!(
        r,
        BlurRegion {
            x: 10,
            y: 20,
            width: 300,
            height: 150
        }
    );
}

#[test]
fn blur_region_zeros() {
    let r: BlurRegion = "0:0:1920:1080".parse().unwrap();
    assert_eq!(
        r,
        BlurRegion {
            x: 0,
            y: 0,
            width: 1920,
            height: 1080
        }
    );
}

#[test]
fn blur_region_too_few_parts() {
    let err = "10:20:300".parse::<BlurRegion>();
    assert!(err.is_err());
    let msg = err.unwrap_err().message();
    assert!(msg.contains("x:y:w:h"));
}

#[test]
fn blur_region_too_many_parts() {
    let err = "10:20:300:150:5".parse::<BlurRegion>();
    assert!(err.is_err());
}

#[test]
fn blur_region_negative_rejected() {
    // no unsigned number starts with a minus sign
    let err = "10:-20:300:150".parse::<BlurRegion>();
    assert!(err.is_err());
}

#[test]
fn blur_region_non_numeric() {
    let err = "x:y:w:h".parse::<BlurRegion>();
    assert!(err.is_err());
}

#[test]
fn blur_region_whitespace_trimmed() {
    let r: BlurRegion = " 10 : 20 : 300 : 150 ".parse().unwrap();
    assert_eq!(
        r,
        BlurRegion {
            x: 10,
            y: 20,
            width: 300,
            height: 150
        }
    );
}

#[test]
fn blur_region_limits() {
    let r = BlurRegion::parse("4294967295:+7:0:00012").unwrap();
    assert_eq!(
        r,
        BlurRegion {
            x: u32::MAX,
            y: 7,
            width: 0,
            height: 12
        }
    );
    for bad in ["4294967296:0:0:0", ":::", "1:2:3:", "", "1:2:3:+", "1:2:3:4 5"] {
        match BlurRegion::parse(bad) {
            Err(LimitcutError::InvalidBlurRegion { input }) => assert_eq!(input, bad),
            other => panic!("{bad:?} gave {other:?}"),
        }
    }
}

#[test]
fn blur_region_reads_back_as_written() {
    for r in [
        BlurRegion {
            x: 0,
            y: 840,
            width: 480,
            height: 200,
        },
        BlurRegion {
            x: 1400,
            y: 0,
            width: u32::MAX,
            height: 60,
        },
    ] {
        let text = format!("{}:{}:{}:{}", r.x, r.y, r.width, r.height);
        assert_eq!(BlurRegion::parse(&text).unwrap(), r);
    }
}

// ── Encoder name parsing ──────────────────────────────────────────────────

#[test]
fn encoder_short_aliases() {
    assert_eq!(parse_encoder_name("nvenc").unwrap(), "h264_nvenc");
    assert_eq!(parse_encoder_name("vaapi").unwrap(), "h264_vaapi");
    assert_eq!(
        parse_encoder_name("videotoolbox").unwrap(),
        "h264_videotoolbox"
    );
    assert_eq!(parse_encoder_name("x264").unwrap(), "libx264");
}

#[test]
fn encoder_full_names() {
    assert_eq!(parse_encoder_name("h264_nvenc").unwrap(), "h264_nvenc");
    assert_eq!(parse_encoder_name("libx264").unwrap(), "libx264");
}

#[test]
fn encoder_unknown_rejected() {
    let err = parse_encoder_name("h265_nvenc");
    assert!(err.is_err());
    assert!(err.unwrap_err().contains("unknown encoder"));
}

#[test]
fn encoder_unknown_message() {
    assert_eq!(
        parse_encoder_name("h265").unwrap_err(),
        "unknown encoder 'h265'. Valid values: nvenc, vaapi, videotoolbox, libx264"
    );
}

#[test]
fn encoder_name_of_encoder_name() {
    for name in ["nvenc", "vaapi", "videotoolbox", "x264", "libx264"] {
        let full = parse_encoder_name(name).unwrap();
        assert_eq!(parse_encoder_name(&full).unwrap(), full);
    }
}

// ── Default output path ───────────────────────────────────────────────────

#[test]
fn default_output_same_dir() {
    let i = info("/recordings/prepull.mkv");
    let p = default_output_path(&i);
    assert_eq!(built(&p), PathBuf::from("/recordings/prepull_combined.mp4"));
}

#[test]
fn default_output_no_extension() {
    let i = info("/recordings/myvideo");
    let p = default_output_path(&i);
    assert_eq!(built(&p), PathBuf::from("/recordings/myvideo_combined.mp4"));
}

#[test]
fn default_output_relative_path() {
    let i = info("prepull.mkv");
    let p = default_output_path(&i);
    assert_eq!(built(&p), PathBuf::from("prepull_combined.mp4"));
    assert!(p.dir.is_none());
}

#[test]
fn default_output_without_a_name() {
    let i = info("/");
    assert_eq!(default_output_filename(&i), "output_combined.mp4");
    assert_eq!(
        built(&default_preview_path(&i)),
        PathBuf::from("output_blur_preview.jpg")
    );
}

// ── Default preview path ──────────────────────────────────────────────────

#[test]
fn default_preview_same_dir() {
    let i = info("/recordings/prepull.mkv");
    let p = default_preview_path(&i);
    assert_eq!(
        built(&p),
        PathBuf::from("/recordings/prepull_blur_preview.jpg")
    );
}

#[test]
fn default_preview_no_extension() {
    let i = info("/recordings/myvideo");
    let p = default_preview_path(&i);
    assert_eq!(
        built(&p),
        PathBuf::from("/recordings/myvideo_blur_preview.jpg")
    );
}

#[test]
fn default_preview_relative_path() {
    let i = info("prepull.mkv");
    let p = default_preview_path(&i);
    assert_eq!(built(&p), PathBuf::from("prepull_blur_preview.jpg"));
}
