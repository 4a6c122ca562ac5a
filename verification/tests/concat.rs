use limitcut::cli::BlurRegion;
use limitcut::error::LimitcutError;
use limitcut::ffmpeg::command::{Arg, FfmpegCommand};
use limitcut::ffmpeg::concat::{
    build_blur_preview_command, build_blur_preview_filter, build_ffmpeg_command,
    build_filter_complex, build_single_input_ffmpeg_command, build_single_input_filter,
    encode_outcome, escape_drawtext, parse_out_time_ms, preview_outcome, print_command,
    progress_percent, ConcatParams, FadeParams, SingleInputParams, BLUR_LUMA_RADIUS,
};
use limitcut::ffmpeg::detect::EncoderConfig;
use limitcut::binary64::Binary64;

fn secs(s: f64) -> Binary64 {
    Binary64 {
        bits: s.to_bits(),
    }
}

/// Default fade params (fadein=1, fadeout=1, no hold, no title).
fn default_fade() -> FadeParams<'static> {
    FadeParams {
        total_duration_secs: secs(60.0),
        ..Default::default()
    }
}

// ── Filter graph construction ─────────────────────────────────────────────

#[test]
fn filter_no_blur_default_fades() {
    let filter = build_filter_complex(&[], &default_fade());

    // Always 2-input concat
    assert!(filter.contains("[0:v][0:a][1:v][1:a]concat=n=2:v=1:a=1"));
    // Video fade-in at st=0 (no hold), d=1
    assert!(filter.contains("fade=t=in:st=0.000000:d=1.000000"));
    // Video fade-out at st=59
    assert!(filter.contains("fade=t=out:st=59.000000:d=1.000000"));
    // Audio fade-in from st=0 (no hold, so no volume silence)
    assert!(filter.contains("afade=t=in:st=0.000000:d=1.000000"));
    // Audio fade-out
    assert!(filter.contains("afade=t=out:st=59.000000:d=1.000000"));
    // No volume silence (hold=0, hold-fadein < 0)
    assert!(!filter.contains("volume="));
    // Final labels
    assert!(filter.contains("[v]"));
    assert!(filter.contains("[a]"));
}

#[test]
fn filter_single_blur() {
    let blurs = vec![BlurRegion {
        x: 0,
        y: 840,
        width: 480,
        height: 200,
    }];
    let filter = build_filter_complex(&blurs, &default_fade());

    // Must start with the concat producing [cv0][araw]
    assert!(filter.contains("concat=n=2:v=1:a=1[cv0][araw]"));
    // Must have a split from [cv0]
    assert!(filter.contains("[cv0]split[main0][blur0]"));
    // Must crop with correct dimensions
    assert!(filter.contains("crop=480:200:0:840"));
    // Must apply boxblur
    assert!(filter.contains(&format!("boxblur={}", BLUR_LUMA_RADIUS)));
    // Must overlay at correct position
    assert!(filter.contains("overlay=0:840"));
    // Fade filters present after blur
    assert!(filter.contains("fade=t=in"));
    assert!(filter.contains("fade=t=out"));
    // Final labels
    assert!(filter.contains("[v]"));
    assert!(filter.contains("[a]"));
}

#[test]
fn filter_two_blurs() {
    let blurs = vec![
        BlurRegion {
            x: 0,
            y: 840,
            width: 480,
            height: 200,
        },
        BlurRegion {
            x: 1400,
            y: 0,
            width: 480,
            height: 60,
        },
    ];
    let filter = build_filter_complex(&blurs, &default_fade());

    // First blur: input=[cv0], output=[cv1]
    assert!(filter.contains("[cv0]split[main0][blur0]"));
    assert!(filter.contains("[cv1]"));

    // Second blur: input=[cv1], output=[cv2]
    assert!(filter.contains("[cv1]split[main1][blur1]"));
    // Fade applied after blur chain
    assert!(filter.contains("fade=t=in"));
    assert!(filter.contains("[v]"));
}

#[test]
fn filter_three_blurs_correct_chain() {
    let blurs: Vec<BlurRegion> = (0..3)
        .map(|i| BlurRegion {
            x: i * 100,
            y: 0,
            width: 50,
            height: 50,
        })
        .collect();
    let filter = build_filter_complex(&blurs, &default_fade());

    // Intermediate labels cv1, cv2 must appear
    assert!(filter.contains("cv1"));
    assert!(filter.contains("cv2"));
    // Final output is [v]
    assert!(filter.contains("[v]"));
}

// ── Fade filter construction ──────────────────────────────────────────────

#[test]
fn filter_custom_fadein() {
    let fade = FadeParams {
        fadein: secs(2.5),
        total_duration_secs: secs(60.0),
        ..Default::default()
    };
    let filter = build_filter_complex(&[], &fade);

    // Always 2-input concat (no lavfi inputs)
    assert!(filter.contains("concat=n=2"));
    assert!(!filter.contains("concat=n=3"));
    // Video fade-in at st=0 (no hold), d=2.5
    assert!(filter.contains("fade=t=in:st=0.000000:d=2.500000"));
    // Audio fade-in from st=0, d=2.5
    assert!(filter.contains("afade=t=in:st=0.000000:d=2.500000"));
    // No volume silence (hold-fadein < 0)
    assert!(!filter.contains("volume="));
}

#[test]
fn filter_custom_fadeout() {
    let fade = FadeParams {
        fadeout: secs(2.0),
        total_duration_secs: secs(60.0),
        ..Default::default()
    };
    let filter = build_filter_complex(&[], &fade);

    // Video fade-out starting at 58s
    assert!(filter.contains("fade=t=out:st=58.000000:d=2.000000"));
    // Audio fade-out
    assert!(filter.contains("afade=t=out:st=58.000000:d=2.000000"));
}

#[test]
fn filter_with_black_hold() {
    let fade = FadeParams {
        fadein: secs(2.0),
        fadeout: secs(1.0),
        black_hold: secs(10.0),
        total_duration_secs: secs(60.0),
        ..Default::default()
    };
    let filter = build_filter_complex(&[], &fade);

    // 2-input concat (no lavfi)
    assert!(filter.contains("concat=n=2"));
    assert!(!filter.contains("concat=n=3"));
    // Video fade-in starts at hold=10
    assert!(filter.contains("fade=t=in:st=10.000000:d=2.000000"));
    // Audio: silence [0, hold-fadein=8], then afade from 8 for 2s
    assert!(filter.contains("volume=enable='between(t,0,8.000000)':volume=0"));
    assert!(filter.contains("afade=t=in:st=8.000000:d=2.000000"));
}

#[test]
fn filter_black_hold_less_than_fadein() {
    // hold=0.5, fadein=2.0: hold-fadein=-1.5, so 0
    let fade = FadeParams {
        fadein: secs(2.0),
        fadeout: secs(1.0),
        black_hold: secs(0.5),
        total_duration_secs: secs(60.0),
        ..Default::default()
    };
    let filter = build_filter_complex(&[], &fade);

    // Video fade-in starts at hold=0.5
    assert!(filter.contains("fade=t=in:st=0.500000:d=2.000000"));
    // Audio: no silence period (hold-fadein < 0), afade from st=0
    assert!(!filter.contains("volume="));
    assert!(filter.contains("afade=t=in:st=0.000000:d=2.000000"));
}

#[test]
fn filter_fadein_fadeout_and_title() {
    let fade = FadeParams {
        fadein: secs(1.0),
        fadeout: secs(1.0),
        black_hold: secs(2.0),
        title: Some("Boss Name/Mythic Kill"),
        total_duration_secs: secs(63.0),
    };
    let filter = build_filter_complex(&[], &fade);

    // 2-input concat
    assert!(filter.contains("concat=n=2"));
    // Video fade-in starts at hold=2
    assert!(filter.contains("fade=t=in:st=2.000000:d=1.000000"));
    // Video fade-out
    assert!(filter.contains("fade=t=out:st=62.000000:d=1.000000"));
    // Audio silence [0, hold-fadein=1]
    assert!(filter.contains("volume=enable='between(t,0,1.000000)':volume=0"));
    // Audio fade-in from st=1
    assert!(filter.contains("afade=t=in:st=1.000000:d=1.000000"));
    // Title drawtext with two lines
    assert!(filter.contains("drawtext=text='Boss Name'"));
    assert!(filter.contains("drawtext=text='Mythic Kill'"));
    // Title uses alpha expression (not enable/between)
    assert!(
        filter.contains("alpha='if(lt(t\\,2.000000)\\,1\\,max(0\\,1-(t-2.000000)/1.000000))'")
    );
}

#[test]
fn filter_title_no_hold() {
    let fade = FadeParams {
        fadein: secs(1.0),
        fadeout: secs(1.0),
        black_hold: secs(0.0),
        title: Some("My Title"),
        total_duration_secs: secs(60.0),
    };
    let filter = build_filter_complex(&[], &fade);

    // Title uses simplified alpha expression (no hold)
    assert!(filter.contains("alpha='max(0\\,1-t/1.000000)'"));
}

#[test]
fn filter_fadein_and_blur() {
    let blurs = vec![BlurRegion {
        x: 0,
        y: 840,
        width: 480,
        height: 200,
    }];
    let fade = FadeParams {
        fadein: secs(1.0),
        fadeout: secs(1.0),
        black_hold: secs(0.0),
        total_duration_secs: secs(61.0),
        title: None,
    };
    let filter = build_filter_complex(&blurs, &fade);

    // 2-input concat
    assert!(filter.contains("concat=n=2"));
    // Blur chain
    assert!(filter.contains("split[main0][blur0]"));
    assert!(filter.contains("crop=480:200:0:840"));
    // Fade filters after blur
    assert!(filter.contains("fade=t=in"));
    // Final labels
    assert!(filter.contains("[v]"));
    assert!(filter.contains("[a]"));
}

#[test]
fn filter_title_escapes_special_chars() {
    let fade = FadeParams {
        fadein: secs(1.0),
        fadeout: secs(1.0),
        black_hold: secs(0.0),
        title: Some("Hello: World"),
        total_duration_secs: secs(61.0),
    };
    let filter = build_filter_complex(&[], &fade);

    // Colon should be escaped
    assert!(filter.contains("Hello\\: World"));
}

#[test]
fn filter_in_full() {
    let blurs = [BlurRegion {
        x: 1,
        y: 2,
        width: 3,
        height: 4,
    }];
    let fade = FadeParams {
        fadein: secs(1.5),
        fadeout: secs(0.25),
        black_hold: secs(4.0),
        title: Some(" A: 50% / it's / c:\\d "),
        total_duration_secs: secs(0.125),
    };
    let alpha = "alpha='if(lt(t\\,4.000000)\\,1\\,max(0\\,1-(t-4.000000)/1.500000))'";
    let line = |text: &str, y: i32| {
        format!(
            "drawtext=text='{text}':x=(w-tw)/2:y=(h/2)+{y}-(th/2):fontsize=48:fontcolor=white:{alpha}"
        )
    };
    let expected = format!(
        "[0:v][0:a][1:v][1:a]concat=n=2:v=1:a=1[cv0][araw];\
         [cv0]split[main0][blur0];[blur0]crop=3:4:1:2,boxblur=10[blurred0];[main0][blurred0]overlay=1:2[cv1];\
         [cv1]fade=t=in:st=4.000000:d=1.500000,fade=t=out:st=0.000000:d=0.250000[vfaded];\
         [araw]volume=enable='between(t,0,2.500000)':volume=0,afade=t=in:st=2.500000:d=1.500000,afade=t=out:st=0.000000:d=0.250000[a];\
         [vfaded]{},{},{}[v]",
        line("A\\: 50\\%", -88),
        line("it'\\\\\\''s", -24),
        line("c\\:\\\\\\\\d", 40),
    );
    assert_eq!(build_filter_complex(&blurs, &fade), expected);
}

#[test]
fn sound_is_up_when_the_picture_appears() {
    let fade = FadeParams {
        fadein: secs(1.25),
        black_hold: secs(3.75),
        total_duration_secs: secs(100.0),
        ..Default::default()
    };
    let filter = build_filter_complex(&[], &fade);
    assert!(filter.contains("[cv0]fade=t=in:st=3.750000:"));
    assert!(filter.contains("afade=t=in:st=2.500000:d=1.250000"));
}

// ── parse_out_time_ms ─────────────────────────────────────────────────────

#[test]
fn parse_progress_out_time() {
    assert_eq!(parse_out_time_ms("out_time_ms=5000000"), Some(5_000_000));
    assert_eq!(parse_out_time_ms("out_time_ms=0"), Some(0));
}

#[test]
fn parse_progress_other_line() {
    assert_eq!(parse_out_time_ms("frame=100"), None);
    assert_eq!(parse_out_time_ms("progress=continue"), None);
    assert_eq!(parse_out_time_ms(""), None);
}

#[test]
fn parse_progress_invalid_value() {
    assert_eq!(parse_out_time_ms("out_time_ms=N/A"), None);
}

#[test]
fn parse_progress_limits() {
    assert_eq!(
        parse_out_time_ms("  out_time_ms=18446744073709551615\r\n"),
        Some(u64::MAX)
    );
    assert_eq!(parse_out_time_ms("out_time_ms=18446744073709551616"), None);
    assert_eq!(parse_out_time_ms("out_time_ms=-5"), None);
    assert_eq!(parse_out_time_ms("out_time_ms= 5"), None);
    assert_eq!(parse_out_time_ms("out_time_ms="), None);
}

#[test]
fn progress_in_percent() {
    let total = secs(10.0);
    assert_eq!(progress_percent("out_time_ms=0", total), Some(0));
    assert_eq!(progress_percent("out_time_ms=5000000", total), Some(50));
    assert_eq!(progress_percent("out_time_ms=9999999", total), Some(99));
    assert_eq!(progress_percent("out_time_ms=11000000", total), Some(100));
    assert_eq!(
        progress_percent("out_time_ms=18446744073709551615", secs(1e-9)),
        Some(100)
    );
    assert_eq!(progress_percent("out_time_ms=290000", secs(1.0)), Some(28));
    assert_eq!(progress_percent("out_time_ms=290001", secs(1.0)), Some(29));
    for total in [0.1, 1.0, 7.3, 59.94, 3600.5, 1e-300, 1e300, f64::INFINITY] {
        for us in [0u64, 1, 99_999, 290_000, 570_000, 7_299_999, 3_600_000_000, u64::MAX] {
            let pct = ((us as f64 / 1_000_000.0 / total) * 100.0).min(100.0) as u64;
            assert_eq!(
                progress_percent(&format!("out_time_ms={us}"), secs(total)),
                Some(pct)
            );
        }
    }
    assert_eq!(progress_percent("out_time_ms=5", secs(f64::NAN)), None);
    assert_eq!(
        progress_percent("out_time_ms=3600000000", secs(1e15)),
        Some(0)
    );
    assert_eq!(progress_percent("out_time_ms=5", secs(0.0)), None);
    assert_eq!(progress_percent("out_time_ms=5", secs(-1.0)), None);
    assert_eq!(progress_percent("frame=5", total), None);
}

#[test]
fn failure_is_told_without_progress_reports() {
    let lines: Vec<String> = [
        "Input #0",
        "frame=1",
        "fps=2",
        "out_time=3",
        "out_time_us=3",
        "progress=continue",
        "speed=1x",
        "bitrate=5",
        "total_size=6",
        "dup_frames=7",
        "drop_frames=8",
        " frame=9",
        "Conversion failed!",
    ]
    .iter()
    .map(|s| s.to_string())
    .collect();
    assert!(encode_outcome(true, &lines).is_ok());
    match encode_outcome(false, &lines) {
        Err(LimitcutError::ConcatFailed { stderr }) => {
            assert_eq!(stderr, "Input #0\n frame=9\nConversion failed!")
        }
        other => panic!("{other:?}"),
    }
    match encode_outcome(false, &Vec::new()) {
        Err(LimitcutError::ConcatFailed { stderr }) => assert_eq!(stderr, ""),
        other => panic!("{other:?}"),
    }
}

#[test]
fn failed_preview_is_told_in_full() {
    assert!(preview_outcome(true, "x".to_owned()).is_ok());
    match preview_outcome(false, "frame=1\nboom".to_owned()) {
        Err(LimitcutError::ConcatFailed { stderr }) => assert_eq!(stderr, "frame=1\nboom"),
        other => panic!("{other:?}"),
    }
}

// ── Blur preview filter construction ──────────────────────────────────────

#[test]
fn preview_filter_single_blur() {
    let blurs = vec![BlurRegion {
        x: 100,
        y: 200,
        width: 300,
        height: 150,
    }];
    let filter = build_blur_preview_filter(&blurs);

    // Must start from [0:v] (single input, no concat)
    assert!(filter.starts_with("[0:v]split"));
    // Must crop with correct dimensions
    assert!(filter.contains("crop=300:150:100:200"));
    // Must apply boxblur
    assert!(filter.contains(&format!("boxblur={}", BLUR_LUMA_RADIUS)));
    // Must overlay at correct position
    assert!(filter.contains("overlay=100:200"));
    // Final label must be [v]
    assert!(filter.ends_with("[v]"));
    // Must NOT contain concat or audio labels
    assert!(!filter.contains("concat"));
    assert!(!filter.contains("[a]"));
}

#[test]
fn preview_filter_two_blurs() {
    let blurs = vec![
        BlurRegion {
            x: 0,
            y: 840,
            width: 480,
            height: 200,
        },
        BlurRegion {
            x: 1400,
            y: 0,
            width: 480,
            height: 60,
        },
    ];
    let filter = build_blur_preview_filter(&blurs);

    // First blur: input=[0:v], output=[cv1]
    assert!(filter.contains("[0:v]split[main0][blur0]"));
    assert!(filter.contains("overlay=0:840[cv1]"));

    // Second blur: input=[cv1], final output=[v]
    assert!(filter.contains("[cv1]split[main1][blur1]"));
    assert!(filter.ends_with("[v]"));
}

#[test]
fn preview_filter_three_blurs_chain() {
    let blurs: Vec<BlurRegion> = (0..3)
        .map(|i| BlurRegion {
            x: i * 100,
            y: 0,
            width: 50,
            height: 50,
        })
        .collect();
    let filter = build_blur_preview_filter(&blurs);

    // Starts from [0:v]
    assert!(filter.starts_with("[0:v]split"));
    // Intermediate labels cv1, cv2
    assert!(filter.contains("[cv1]"));
    assert!(filter.contains("[cv2]"));
    // Final output is [v]
    assert!(filter.ends_with("[v]"));
}

#[test]
fn preview_filter_in_full() {
    let blurs = [BlurRegion {
        x: 1,
        y: 2,
        width: 3,
        height: 4,
    }];
    assert_eq!(
        build_blur_preview_filter(&blurs),
        "[0:v]split[main0][blur0];[blur0]crop=3:4:1:2,boxblur=10[blurred0];[main0][blurred0]overlay=1:2[v]"
    );
}

// ── Drawtext escape ───────────────────────────────────────────────────────

#[test]
fn escape_drawtext_colons() {
    assert_eq!(escape_drawtext("Hello: World"), "Hello\\: World");
}

#[test]
fn escape_drawtext_percent() {
    assert_eq!(escape_drawtext("100%"), "100\\%");
}

#[test]
fn escape_drawtext_plain() {
    assert_eq!(escape_drawtext("Hello World"), "Hello World");
}

#[test]
fn escape_drawtext_quotes_and_backslashes() {
    assert_eq!(escape_drawtext("\\"), "\\\\\\\\");
    assert_eq!(escape_drawtext("'"), "'\\\\\\''");
    let all = "é\\':%\u{1F600}";
    let one_by_one = all
        .replace('\\', "\\\\\\\\")
        .replace('\'', "'\\\\\\''")
        .replace(':', "\\:")
        .replace('%', "\\%");
    assert_eq!(escape_drawtext(all), one_by_one);
    assert_eq!(
        escape_drawtext("ab:c"),
        escape_drawtext("ab") + &escape_drawtext(":c")
    );
}

// ── build_ffmpeg_command ──────────────────────────────────────────────────

struct Files {
    ffmpeg: String,
    pre: String,
    post: String,
    output: String,
}

fn files() -> Files {
    Files {
        ffmpeg: "/usr/bin/ffmpeg".to_owned(),
        pre: "pre.mkv".to_owned(),
        post: "post.mkv".to_owned(),
        output: "out.mp4".to_owned(),
    }
}

fn test_concat_params<'a>(
    f: &'a Files,
    cut_point_secs: f64,
    encoder: &'a EncoderConfig,
) -> ConcatParams<'a, String> {
    ConcatParams {
        ffmpeg: &f.ffmpeg,
        pre: &f.pre,
        post: &f.post,
        output: &f.output,
        cut_point_secs: secs(cut_point_secs),
        estimated_total_secs: secs(cut_point_secs + 300.0),
        encoder,
        blurs: &[],
        fadein: secs(1.0),
        fadeout: secs(1.0),
        black_hold: secs(0.0),
        title: None,
        pre_seek_secs: secs(0.0),
    }
}

fn args_of(cmd: &FfmpegCommand<'_, String>) -> Vec<String> {
    cmd.args
        .iter()
        .map(|a| match a {
            Arg::Text(s) => s.clone(),
            Arg::File(f) => (*f).clone(),
        })
        .collect()
}

#[test]
fn cmd_basic_two_inputs() {
    let enc = EncoderConfig::from_name("libx264");
    let f = files();
    let params = test_concat_params(&f, 25.0, &enc);
    let args = args_of(&build_ffmpeg_command(&params));

    // No -ss (pre-video is never seeked)
    assert!(!args.contains(&"-ss".to_owned()));
    // -t trims the pre-video to cut point
    assert!(args.contains(&"-t".to_owned()));
    let t_pos = args.iter().position(|a| a == "-t").unwrap();
    assert_eq!(args[t_pos + 1], "25.000000");
}

#[test]
fn cmd_black_hold_does_not_seek() {
    let enc = EncoderConfig::from_name("libx264");
    let f = files();
    let mut params = test_concat_params(&f, 25.0, &enc);
    params.black_hold = secs(10.0);
    params.fadein = secs(2.0);
    let args = args_of(&build_ffmpeg_command(&params));

    // Still no -ss: black_hold is handled purely by the filter graph
    assert!(!args.contains(&"-ss".to_owned()));
    // -t is still the full cut point
    let t_pos = args.iter().position(|a| a == "-t").unwrap();
    assert_eq!(args[t_pos + 1], "25.000000");
}

#[test]
fn cmd_pre_seek_adds_ss_and_reduces_t() {
    let enc = EncoderConfig::from_name("libx264");
    let f = files();
    let mut params = test_concat_params(&f, 25.0, &enc);
    params.pre_seek_secs = secs(8.0); // e.g. black_hold=12: 4 left, seek=8
    params.black_hold = secs(4.0);
    let args = args_of(&build_ffmpeg_command(&params));

    // -ss must be present before -i
    let ss_pos = args.iter().position(|a| a == "-ss").unwrap();
    assert_eq!(args[ss_pos + 1], "8.000000");

    // -t must be cut_point - pre_seek = 25 - 8 = 17
    let t_pos = args.iter().position(|a| a == "-t").unwrap();
    assert_eq!(args[t_pos + 1], "17.000000");

    // -ss comes before -t which comes before -i
    let i_pos = args.iter().position(|a| a == "-i").unwrap();
    assert!(ss_pos < t_pos);
    assert!(t_pos < i_pos);
}

#[test]
fn cmd_pre_seek_zero_no_ss() {
    let enc = EncoderConfig::from_name("libx264");
    let f = files();
    let mut params = test_concat_params(&f, 30.0, &enc);
    params.pre_seek_secs = secs(0.0);
    params.black_hold = secs(3.0); // under the maximum, no seek
    let args = args_of(&build_ffmpeg_command(&params));

    // No -ss when pre_seek is 0
    assert!(!args.contains(&"-ss".to_owned()));
    // -t is full cut point
    let t_pos = args.iter().position(|a| a == "-t").unwrap();
    assert_eq!(args[t_pos + 1], "30.000000");
}

#[test]
fn cmd_in_full() {
    let enc = EncoderConfig::from_name("h264_nvenc");
    let f = files();
    let mut params = test_concat_params(&f, 25.0, &enc);
    params.pre_seek_secs = secs(1.5);
    let cmd = build_ffmpeg_command(&params);
    assert_eq!(cmd.program, "/usr/bin/ffmpeg");
    let graph = build_filter_complex(
        &[],
        &FadeParams {
            total_duration_secs: secs(325.0),
            ..Default::default()
        },
    );
    let expected = [
        "-hide_banner",
        "-y",
        "-ss",
        "1.500000",
        "-t",
        "23.500000",
        "-i",
        "pre.mkv",
        "-i",
        "post.mkv",
        "-filter_complex",
        &graph,
        "-map",
        "[v]",
        "-map",
        "[a]",
        "-c:v",
        "h264_nvenc",
        "-cq",
        "18",
        "-preset",
        "p4",
        "-c:a",
        "aac",
        "-b:a",
        "192k",
        "out.mp4",
        "-progress",
        "pipe:2",
        "-nostats",
    ];
    assert_eq!(args_of(&cmd), expected);
}

#[test]
fn preview_command_in_full() {
    let f = files();
    let blurs = [BlurRegion {
        x: 1,
        y: 2,
        width: 3,
        height: 4,
    }];
    let cmd = build_blur_preview_command(&f.ffmpeg, &f.pre, &blurs, secs(12.5), &f.output);
    let graph = build_blur_preview_filter(&blurs);
    assert_eq!(
        args_of(&cmd),
        [
            "-hide_banner",
            "-y",
            "-ss",
            "12.500000",
            "-i",
            "pre.mkv",
            "-filter_complex",
            &graph,
            "-map",
            "[v]",
            "-frames:v",
            "1",
            "-q:v",
            "2",
            "out.mp4"
        ]
    );
}

#[test]
fn single_input_command_in_full() {
    let enc = EncoderConfig::discord_720p();
    let f = files();
    let blurs = [
        BlurRegion {
            x: 1,
            y: 2,
            width: 3,
            height: 4,
        },
        BlurRegion {
            x: 5,
            y: 6,
            width: 7,
            height: 8,
        },
    ];
    let mut params = SingleInputParams {
        ffmpeg: &f.ffmpeg,
        input: &f.pre,
        output: &f.output,
        estimated_total_secs: secs(30.0),
        encoder: &enc,
        blurs: &blurs,
        fadein: secs(0.0),
        fadeout: secs(0.0),
        black_hold: secs(0.0),
        title: None,
        input_seek_secs: secs(0.0),
        output_height: Some(720),
    };
    let no_fade = FadeParams {
        fadein: secs(0.0),
        fadeout: secs(0.0),
        black_hold: secs(0.0),
        title: None,
        total_duration_secs: secs(30.0),
    };
    let graph = "[0:v]split[main0][blur0];[blur0]crop=3:4:1:2,boxblur=10[blurred0];[main0][blurred0]overlay=1:2[cv1];\
                 [cv1]split[main1][blur1];[blur1]crop=7:8:5:6,boxblur=10[blurred1];[main1][blurred1]overlay=5:6[cv2];\
                 [cv2]scale=-2:720[v]";
    assert_eq!(build_single_input_filter(&blurs, &no_fade, Some(720)), graph);
    assert_eq!(
        args_of(&build_single_input_ffmpeg_command(&params)),
        [
            "-hide_banner",
            "-y",
            "-i",
            "pre.mkv",
            "-filter_complex",
            graph,
            "-map",
            "[v]",
            "-map",
            "0:a?",
            "-c:v",
            "libx264",
            "-crf",
            "18",
            "-preset",
            "medium",
            "-c:a",
            "aac",
            "-b:a",
            "192k",
            "out.mp4",
            "-progress",
            "pipe:2",
            "-nostats"
        ]
    );
    params.blurs = &[];
    params.output_height = None;
    params.input_seek_secs = secs(2.0);
    let args = args_of(&build_single_input_ffmpeg_command(&params));
    assert_eq!(args[2..4], ["-ss", "2.000000"]);
    assert!(args.contains(&"[0:v]null[v]".to_owned()));
}

#[test]
fn single_input_with_effects() {
    let fade = FadeParams {
        fadein: secs(1.0),
        fadeout: secs(2.0),
        black_hold: secs(3.0),
        title: None,
        total_duration_secs: secs(30.0),
    };
    assert_eq!(
        build_single_input_filter(&[], &fade, Some(720)),
        "[0:v]fade=t=in:st=3.000000:d=1.000000,fade=t=out:st=28.000000:d=2.000000,scale=-2:720[v];\
         [0:a]volume=enable='between(t,0,2.000000)':volume=0,\
         afade=t=in:st=2.000000:d=1.000000,afade=t=out:st=28.000000:d=2.000000[a]"
    );
    let enc = EncoderConfig::libx264();
    let f = files();
    let params = SingleInputParams {
        ffmpeg: &f.ffmpeg,
        input: &f.pre,
        output: &f.output,
        estimated_total_secs: secs(30.0),
        encoder: &enc,
        blurs: &[],
        fadein: fade.fadein,
        fadeout: fade.fadeout,
        black_hold: fade.black_hold,
        title: None,
        input_seek_secs: secs(0.0),
        output_height: Some(720),
    };
    let args = args_of(&build_single_input_ffmpeg_command(&params));
    assert_eq!(args[5], build_single_input_filter(&[], &fade, Some(720)));
    assert_eq!(args[6..10], ["-map", "[v]", "-map", "[a]"]);
}

#[test]
fn a_title_adds_a_last_stage() {
    let blurs = [BlurRegion {
        x: 1,
        y: 2,
        width: 3,
        height: 4,
    }];
    let mut fade = FadeParams {
        black_hold: secs(2.0),
        ..default_fade()
    };
    for blurs in [&blurs[..], &[]] {
        fade.title = None;
        let base = build_filter_complex(blurs, &fade);
        assert_eq!(base.matches("[v]").count(), 1);
        for title in ["Plain", "Two/Lines", "", "[v]"] {
            fade.title = Some(title);
            let whole = build_filter_complex(blurs, &fade);
            let renamed = base.replace("[v]", "[vfaded]");
            assert!(whole.starts_with(&format!("{renamed};[vfaded]drawtext=text='")));
            assert!(whole.ends_with("[v]"));
        }
    }
}

// ── Commands as lines for a shell ─────────────────────────────────────────

fn line(program: &str, args: &[&str]) -> String {
    let args: Vec<String> = args.iter().map(|s| s.to_string()).collect();
    print_command(program, &args)
}

#[test]
fn printed_command_can_be_pasted() {
    assert_eq!(
        line("/usr/bin/ffmpeg", &["-i", "my video.mkv", "", "out.mp4"]),
        "/usr/bin/ffmpeg -i 'my video.mkv' '' out.mp4"
    );
    assert_eq!(
        line("/usr/bin/ffmpeg", &["-map", "[v]", "-c:v", "h264_nvenc"]),
        "/usr/bin/ffmpeg -map '[v]' -c:v h264_nvenc"
    );
    assert_eq!(
        line("/usr/bin/ffmpeg", &["a;b", "it's", "$HOME", "~", "a\\b", "x\ny"]),
        "/usr/bin/ffmpeg 'a;b' 'it'\\''s' '$HOME' '~' 'a\\b' 'x\ny'"
    );
    assert_eq!(line("/my tools/ffmpeg", &["-y"]), "'/my tools/ffmpeg' -y");
    assert_eq!(line("ffmpeg", &[]), "'ffmpeg'");
}

/// The words of a line with nothing but plain characters, single quotes,
/// and backslashes in it.
fn words(line: &str) -> Vec<String> {
    let mut words = Vec::new();
    let mut word: Option<String> = None;
    let mut in_quotes = false;
    let mut rest = line.chars();
    while let Some(c) = rest.next() {
        match c {
            '\'' => {
                in_quotes = !in_quotes;
                word.get_or_insert_with(String::new);
            }
            ' ' if !in_quotes => words.extend(word.take()),
            '\\' if !in_quotes => {
                let next = rest.next().unwrap();
                word.get_or_insert_with(String::new).push(next);
            }
            c => {
                assert!(in_quotes || c.is_ascii_alphanumeric() || "_-./:,+@".contains(c));
                word.get_or_insert_with(String::new).push(c);
            }
        }
    }
    assert!(!in_quotes);
    words.extend(word);
    words
}

#[test]
fn printed_command_reads_back() {
    let enc = EncoderConfig::libx264();
    let f = files();
    let mut params = test_concat_params(&f, 25.0, &enc);
    params.title = Some("It's; \"two\"/$lines & more");
    let cmd = build_ffmpeg_command(&params);
    let args = args_of(&cmd);
    let printed = print_command("/opt/my tools/ffmpeg", &args);
    let mut expected = vec!["/opt/my tools/ffmpeg".to_owned()];
    expected.extend(args);
    assert_eq!(words(&printed), expected);
}
