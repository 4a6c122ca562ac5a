//! The command line: its arguments and the values that they hold.

use vstd::prelude::*;

use crate::error::LimitcutError;
use crate::number::{dec, is_digit, law_number_round_trip, lemma_dec, parse_u32, read_number};
use crate::paths::{one_under, OutputPath, OutputView, PathInfo};
use crate::binary64::Binary64;
use crate::text::{
    cat2, cat3, joined, law_split_of_join, lemma_cut_nothing, pieces, same_text, split_on, texts,
    trim, trimmed, Edge,
};

verus! {

/// The arguments of a run.
///
/// `P` is whatever the program names a file by.
#[derive(Debug, Clone)]
pub struct Args<P> {
    /// The first recording (will be trimmed at the detected cut point).
    ///
    /// This is the shorter clip that contains footage *before* the main event
    /// starts, e.g. a replay buffer clip saved just before a boss pull.
    pub pre_video: Option<P>,
    /// The second recording (appended in full after the cut point).
    pub post_video: Option<P>,
    /// A single metadata file to process.
    pub json: Option<P>,
    /// A directory of metadata files to process.
    pub json_dir: Option<P>,
    /// A single InstaPost descriptor to process.
    pub instapost: Option<P>,
    /// A directory to watch for InstaPost descriptors.
    pub watch_instapost: Option<P>,
    /// Output file path.
    pub output: Option<P>,
    /// Base output directory.
    pub output_dir: Option<P>,
    /// Overwrite the output file if it already exists.
    pub overwrite: bool,
    /// H.264 encoder to use for the output, by its full name.
    pub encoder: Option<String>,
    /// Rectangular regions of the output video to blur.
    pub blur: Vec<BlurRegion>,
    /// Generate a single frame at this time with blur regions applied, then exit.
    pub preview_blur: Option<Binary64>,
    /// Print the ffmpeg command, then exit without running it.
    pub dry_run: bool,
    /// Fade-in duration.
    pub fadein: Option<Binary64>,
    /// Fade-out duration.
    pub fadeout: Option<Binary64>,
    /// Time of black screen before the fade-in begins.
    pub black_hold: Option<Binary64>,
    /// Title text, with `/` for line breaks.
    pub title: Option<String>,
    /// Enable verbose debug logging.
    pub verbose: bool,
}

/// A rectangular region of the video to blur.
#[derive(Debug, Clone, Copy, PartialEq, Eq, Structural)]
pub struct BlurRegion {
    pub x: u32,
    pub y: u32,
    pub width: u32,
    pub height: u32,
}

/// The number that a part of a region stands for.
pub open spec fn read_part(s: Seq<char>) -> Option<nat> {
    read_number(trimmed(s), u32::MAX as nat)
}

/// The region that a text stands for: four numbers with colons between them,
/// each with white space around it if need be.
pub open spec fn read_region(s: Seq<char>) -> Option<BlurRegion> {
    let ps = pieces(s, ':');
    if ps.len() == 4 && read_part(ps[0]) is Some && read_part(ps[1]) is Some && read_part(ps[2])
        is Some && read_part(ps[3]) is Some {
        Some(
            BlurRegion {
                x: read_part(ps[0])->0 as u32,
                y: read_part(ps[1])->0 as u32,
                width: read_part(ps[2])->0 as u32,
                height: read_part(ps[3])->0 as u32,
            },
        )
    } else {
        None
    }
}

fn parse_part(s: &String) -> (r: Option<u32>)
    ensures
        match r {
            Some(n) => read_part(s@) == Some(n as nat),
            None => read_part(s@) is None,
        },
{
    parse_u32(trim(s.as_str()).as_str())
}

impl BlurRegion {
    /// The region that `x:y:width:height` stands for (pixel coordinates,
    /// top-left origin).
    pub fn parse(s: &str) -> (r: Result<BlurRegion, LimitcutError>)
        ensures
            match r {
                Ok(region) => read_region(s@) == Some(region),
                Err(LimitcutError::InvalidBlurRegion { input }) => read_region(s@) is None
                    && input@ == s@,
                Err(_) => false,
            },
    {
        let parts = split_on(s, ':');
        let ghost ps = pieces(s@, ':');
        assert(parts.len() == ps.len());
        if parts.len() != 4 {
            return Err(LimitcutError::InvalidBlurRegion { input: s.to_owned() });
        }
        assert(forall|i: int| 0 <= i < 4 ==> texts(parts@)[i] == (#[trigger] parts@[i])@);
        match (
            parse_part(&parts[0]),
            parse_part(&parts[1]),
            parse_part(&parts[2]),
            parse_part(&parts[3]),
        ) {
            (Some(x), Some(y), Some(width), Some(height)) => Ok(
                BlurRegion { x, y, width, height },
            ),
            _ => Err(LimitcutError::InvalidBlurRegion { input: s.to_owned() }),
        }
    }
}

impl std::str::FromStr for BlurRegion {
    type Err = LimitcutError;

    fn from_str(s: &str) -> (r: Result<BlurRegion, LimitcutError>)
        ensures
            match r {
                Ok(region) => read_region(s@) == Some(region),
                Err(LimitcutError::InvalidBlurRegion { input }) => read_region(s@) is None
                    && input@ == s@,
                Err(_) => false,
            },
    {
        BlurRegion::parse(s)
    }
}

/// The full name of an encoder, given that or a short form of it.
pub open spec fn canonical_encoder(s: Seq<char>) -> Option<Seq<char>> {
    if s == "nvenc"@ || s == "h264_nvenc"@ {
        Some("h264_nvenc"@)
    } else if s == "vaapi"@ || s == "h264_vaapi"@ {
        Some("h264_vaapi"@)
    } else if s == "videotoolbox"@ || s == "h264_videotoolbox"@ {
        Some("h264_videotoolbox"@)
    } else if s == "libx264"@ || s == "x264"@ {
        Some("libx264"@)
    } else {
        None
    }
}

/// Validate and normalise an encoder name supplied on the CLI.
pub fn parse_encoder_name(s: &str) -> (r: Result<String, String>)
    ensures
        match r {
            Ok(name) => canonical_encoder(s@) == Some(name@),
            Err(message) => canonical_encoder(s@) is None && message@ == "unknown encoder '"@ + s@
                + "'. Valid values: nvenc, vaapi, videotoolbox, libx264"@,
        },
{
    if same_text(s, "nvenc") || same_text(s, "h264_nvenc") {
        Ok("h264_nvenc".to_owned())
    } else if same_text(s, "vaapi") || same_text(s, "h264_vaapi") {
        Ok("h264_vaapi".to_owned())
    } else if same_text(s, "videotoolbox") || same_text(s, "h264_videotoolbox") {
        Ok("h264_videotoolbox".to_owned())
    } else if same_text(s, "libx264") || same_text(s, "x264") {
        Ok("libx264".to_owned())
    } else {
        Err(
            cat3(
                "unknown encoder '",
                s,
                "'. Valid values: nvenc, vaapi, videotoolbox, libx264",
            ),
        )
    }
}

/// The stem of a video's name, or `output` where it has none.
pub open spec fn stem_text<P>(video: PathInfo<P>) -> Seq<char> {
    match video.stem {
        Some(s) => s@,
        None => "output"@,
    }
}

/// The directory of a video, where its path names one.
pub open spec fn named_dir<P>(video: PathInfo<P>) -> Option<P> {
    match video.parent {
        Some(p) => if p.text@.len() > 0 {
            Some(p.path)
        } else {
            None
        },
        None => None,
    }
}

fn stem_of<P>(video: &PathInfo<P>) -> (r: &str)
    ensures
        r@ == stem_text(*video),
{
    match &video.stem {
        Some(s) => s.as_str(),
        None => "output",
    }
}

fn dir_of<P>(video: &PathInfo<P>) -> (r: Option<&P>)
    ensures
        match r {
            Some(d) => named_dir(*video) == Some(*d),
            None => named_dir(*video) is None,
        },
{
    match &video.parent {
        Some(p) => if p.text.as_str().is_empty() {
            None
        } else {
            Some(&p.path)
        },
        None => None,
    }
}

/// The default name of the output: the stem of the pre-video and `_combined.mp4`.
pub fn default_output_filename<P>(pre_video: &PathInfo<P>) -> (r: String)
    ensures
        r@ == stem_text(*pre_video) + "_combined.mp4"@,
{
    cat2(stem_of(pre_video), "_combined.mp4")
}

/// Derive the default output path from the pre-video path.
///
/// Strips the extension and appends `_combined.mp4` in the same directory.
pub fn default_output_path<P>(pre_video: &PathInfo<P>) -> (r: OutputPath<'_, P>)
    ensures
        r@ == (OutputView {
            dir: named_dir(*pre_video),
            parts: seq![stem_text(*pre_video) + "_combined.mp4"@],
        }),
{
    one_under(dir_of(pre_video), default_output_filename(pre_video))
}

/// Derive the default blur preview path from the pre-video path.
///
/// Strips the extension and appends `_blur_preview.jpg` in the same directory.
pub fn default_preview_path<P>(pre_video: &PathInfo<P>) -> (r: OutputPath<'_, P>)
    ensures
        r@ == (OutputView {
            dir: named_dir(*pre_video),
            parts: seq![stem_text(*pre_video) + "_blur_preview.jpg"@],
        }),
{
    one_under(dir_of(pre_video), cat2(stem_of(pre_video), "_blur_preview.jpg"))
}

// ── Laws ─────────────────────────────────────────────────────────────────

proof fn lemma_part_round_trip(n: u32)
    ensures
        !dec(n as nat).contains(':'),
        read_part(dec(n as nat)) == Some(n as nat),
{
    let d = dec(n as nat);
    lemma_dec(n as nat);
    assert(is_digit(d[0]) && is_digit(d[d.len() - 1]));
    lemma_cut_nothing(d, Edge::White);
    law_number_round_trip(n as nat, u32::MAX as nat);
    if d.contains(':') {
        let i = choose|i: int| 0 <= i < d.len() && d[i] == ':';
        assert(is_digit(d[i]));
    }
}

/// A region reads back as it is written: four numbers with colons between them.
pub proof fn law_region_round_trip(r: BlurRegion)
    ensures
        read_region(
            dec(r.x as nat) + ":"@ + dec(r.y as nat) + ":"@ + dec(r.width as nat) + ":"@ + dec(
                r.height as nat,
            ),
        ) == Some(r),
{
    let parts = seq![
        dec(r.x as nat),
        dec(r.y as nat),
        dec(r.width as nat),
        dec(r.height as nat),
    ];
    lemma_part_round_trip(r.x);
    lemma_part_round_trip(r.y);
    lemma_part_round_trip(r.width);
    lemma_part_round_trip(r.height);
    law_split_of_join(parts, ':');
    reveal_strlit(":");
    assert(":"@ =~= seq![':']);
    reveal_with_fuel(joined, 4);
    assert(parts.drop_last() =~= seq![parts[0], parts[1], parts[2]]);
    assert(parts.drop_last().drop_last() =~= seq![parts[0], parts[1]]);
    assert(parts.drop_last().drop_last().drop_last() =~= seq![parts[0]]);
}

/// A full name is its own full name: to normalise twice is to normalise once.
pub proof fn law_encoder_name_idempotent(s: Seq<char>)
    requires
        canonical_encoder(s) is Some,
    ensures
        canonical_encoder(canonical_encoder(s)->0) == canonical_encoder(s),
{
    reveal_strlit("nvenc");
    reveal_strlit("vaapi");
    reveal_strlit("videotoolbox");
    reveal_strlit("x264");
    reveal_strlit("h264_nvenc");
    reveal_strlit("h264_vaapi");
    reveal_strlit("h264_videotoolbox");
    reveal_strlit("libx264");
    assert("h264_vaapi"@[5] == 'v');
    assert("h264_nvenc"@[5] == 'n');
}

/// A text is a region just where it has four parts with colons between them,
/// each a number with white space around it if need be; they are, in order,
/// how far it is from the left and from the top, its width and its height.
pub proof fn law_region_is_four_numbers(s: Seq<char>)
    ensures
        ({
            let ps = pieces(s, ':');
            let max = 0xffff_ffffnat;
            match read_region(s) {
                Some(r) => {
                    &&& ps.len() == 4
                    &&& read_number(trimmed(ps[0]), max) == Some(r.x as nat)
                    &&& read_number(trimmed(ps[1]), max) == Some(r.y as nat)
                    &&& read_number(trimmed(ps[2]), max) == Some(r.width as nat)
                    &&& read_number(trimmed(ps[3]), max) == Some(r.height as nat)
                },
                None => ps.len() != 4 || exists|i: int|
                    0 <= i < 4 && read_number(trimmed(#[trigger] ps[i]), max) is None,
            }
        }),
{
    let ps = pieces(s, ':');
    if read_region(s) is None && ps.len() == 4 {
        let i = if read_part(ps[0]) is None {
            0int
        } else if read_part(ps[1]) is None {
            1
        } else if read_part(ps[2]) is None {
            2
        } else {
            3
        };
        assert(read_number(trimmed(ps[i]), 0xffff_ffff) is None);
    }
}

/// The names of encoders, short and full, and no others.
pub proof fn law_encoder_names(s: Seq<char>)
    ensures
        canonical_encoder(s) == Some("h264_nvenc"@) <==> s == "nvenc"@ || s == "h264_nvenc"@,
        canonical_encoder(s) == Some("h264_vaapi"@) <==> s == "vaapi"@ || s == "h264_vaapi"@,
        canonical_encoder(s) == Some("h264_videotoolbox"@) <==> s == "videotoolbox"@ || s
            == "h264_videotoolbox"@,
        canonical_encoder(s) == Some("libx264"@) <==> s == "x264"@ || s == "libx264"@,
        canonical_encoder(s) is None <==> s != "nvenc"@ && s != "h264_nvenc"@ && s != "vaapi"@ && s
            != "h264_vaapi"@ && s != "videotoolbox"@ && s != "h264_videotoolbox"@ && s != "x264"@
            && s != "libx264"@,
{
    reveal_strlit("nvenc");
    reveal_strlit("vaapi");
    reveal_strlit("videotoolbox");
    reveal_strlit("x264");
    reveal_strlit("h264_nvenc");
    reveal_strlit("h264_vaapi");
    reveal_strlit("h264_videotoolbox");
    reveal_strlit("libx264");
    assert("h264_vaapi"@[5] == 'v');
    assert("h264_nvenc"@[5] == 'n');
    assert("nvenc"@[0] == 'n');
    assert("vaapi"@[0] == 'v');
    assert("nvenc"@.len() == 5 && "vaapi"@.len() == 5 && "videotoolbox"@.len() == 12);
    assert("h264_nvenc"@.len() == 10 && "h264_vaapi"@.len() == 10);
    assert("h264_videotoolbox"@.len() == 17 && "x264"@.len() == 4 && "libx264"@.len() == 7);
}

/// The stem of a video's name is used where it has one, and its directory
/// where its path names one.
pub proof fn law_names_beside_a_video<P>(video: PathInfo<P>)
    ensures
        video.stem is Some ==> stem_text(video) == video.stem->0@,
        video.stem is None ==> stem_text(video) == "output"@,
        named_dir(video) is Some <==> video.parent is Some && video.parent->0.text@.len() > 0,
        named_dir(video) is Some ==> named_dir(video)->0 == video.parent->0.path,
{
}

} // verus!
