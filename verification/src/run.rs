//! What a run does: which mode it is in, what it works on, and how it ends.

use vstd::prelude::*;

use crate::binary64::writing::{
    fixed_text, floor_text, law_floor_text, law_sixtieths_text, sixtieths_text,
};
use crate::binary64::{
    at_least_zero, difference, is_near, is_positive, law_difference_is_near,
    law_order_is_that_of_values, law_powers_of_two, law_quotient_shrinks,
    law_short_difference_is_exact, law_whole_is_exact, law_whole_is_not_negative, law_zero, less,
    one, quotient, sum, two_to, whole, zero, Binary64,
};
use crate::cli::{
    canonical_encoder, default_output_filename, default_output_path, law_encoder_names, named_dir,
    parse_encoder_name, stem_text, Args, BlurRegion,
};
use crate::config::{Config, DiscordVideoMode};
use crate::error::LimitcutError;
use crate::ffmpeg::concat::{
    single_audio_filters, single_stages, single_video_filters, ConcatParams, ConcatResult,
    SingleInputParams,
};
use crate::ffmpeg::detect::{
    best_listed, detect_best_encoder, encoder_view, law_each_encoder_by_its_name, libx264_view,
    EncoderConfig, EncoderView,
};
use crate::instapost::{
    derive_output_path as derive_instapost_output_path, output_parts as instapost_output_parts,
    ValidatedInstapostJson,
};
use crate::json_input::{home_dir, home_of, ValidatedJson};
use crate::listing::{is_listing, list_kept, DirEntry};
use crate::number::{all_digits, dec, decimal, digits_value};
use crate::overlap::correlate::CorrelationResult;
use crate::paths::{just, one_under, OutputPath, OutputView, PathInfo};
use crate::text::{cat2, cat3, cat4, law_split_in_parts, opt_str, pieces};

verus! {

/// Maximum seconds of black-hold before the auto-trim kicks in.
///
/// When the user requests a `--black-hold` longer than this, the excess is
/// converted into a pre-input seek (`-ss`) so the output never starts with
/// more than `MAX_BLACK_HOLD` seconds of black screen.
pub const MAX_BLACK_HOLD: u32 = 4;

// ── Modes ────────────────────────────────────────────────────────────────

/// What the user is told of the modes.
pub const MODES: &'static str =
    "provide PRE_VIDEO and POST_VIDEO (or use --preview-blur with just PRE_VIDEO), or --json, or --json-dir, or --instapost, or --watch-instapost";

/// What there is to do.
#[derive(Debug)]
pub enum Mode<'a, P> {
    /// Render one frame of a video with blur regions applied.
    Preview { pre: &'a P, timestamp: Binary64 },
    /// Combine two videos.
    Combine { pre: &'a P, post: &'a P },
    /// Combine the videos of a metadata file.
    Json(&'a P),
    /// Combine the videos of all metadata files in a directory.
    JsonDir(&'a P),
    /// Process a descriptor.
    Instapost(&'a P),
    /// Process descriptors as they appear in a directory.
    WatchInstapost(&'a P),
}

/// The mode that the inputs make up, if they make up one: two videos, or one
/// of the four flags, or one video with `--preview-blur`; and nothing else.
pub open spec fn mode_of<'a, P>(args: &'a Args<P>) -> Option<Mode<'a, P>> {
    match (
        args.pre_video,
        args.post_video,
        args.json,
        args.json_dir,
        args.instapost,
        args.watch_instapost,
    ) {
        (Some(pre), Some(post), None, None, None, None) => Some(
            Mode::Combine { pre: &pre, post: &post },
        ),
        (Some(pre), None, None, None, None, None) => match args.preview_blur {
            Some(timestamp) => Some(Mode::Preview { pre: &pre, timestamp }),
            None => None,
        },
        (None, None, Some(json), None, None, None) => Some(Mode::Json(&json)),
        (None, None, None, Some(dir), None, None) => Some(Mode::JsonDir(&dir)),
        (None, None, None, None, Some(json), None) => Some(Mode::Instapost(&json)),
        (None, None, None, None, None, Some(dir)) => Some(Mode::WatchInstapost(&dir)),
        _ => None,
    }
}

/// The mode that the inputs make up.
pub fn select_mode<'a, P>(args: &'a Args<P>) -> (r: Result<Mode<'a, P>, LimitcutError>)
    ensures
        match r {
            Ok(mode) => mode_of(args) == Some(mode),
            Err(LimitcutError::InvalidInputMode(text)) => mode_of(args) is None && text@ == MODES@,
            Err(_) => false,
        },
{
    match (
        &args.pre_video,
        &args.post_video,
        &args.json,
        &args.json_dir,
        &args.instapost,
        &args.watch_instapost,
    ) {
        (Some(pre), Some(post), None, None, None, None) => Ok(Mode::Combine { pre, post }),
        (Some(pre), None, None, None, None, None) => match args.preview_blur {
            Some(timestamp) => Ok(Mode::Preview { pre, timestamp }),
            None => Err(LimitcutError::InvalidInputMode(MODES)),
        },
        (None, None, Some(json), None, None, None) => Ok(Mode::Json(json)),
        (None, None, None, Some(dir), None, None) => Ok(Mode::JsonDir(dir)),
        (None, None, None, None, Some(json), None) => Ok(Mode::Instapost(json)),
        (None, None, None, None, None, Some(dir)) => Ok(Mode::WatchInstapost(dir)),
        _ => Err(LimitcutError::InvalidInputMode(MODES)),
    }
}

// ── Metadata files ───────────────────────────────────────────────────────

/// The title over the output of a metadata file.
///
/// By itself it is what the user gave, or the encounter. In a batch (`auto`)
/// it is the encounter and the job's point of view, with what the user gave
/// as more lines behind it.
pub open spec fn json_title_text<P>(
    json: ValidatedJson<P>,
    user: Option<Seq<char>>,
    auto: bool,
) -> Seq<char> {
    if auto {
        let base = match json.job {
            Some(job) => json.encounter@ + "/"@ + job@ + " POV"@,
            None => json.encounter@,
        };
        match user {
            Some(lines) => base + "/"@ + lines,
            None => base,
        }
    } else {
        match user {
            Some(lines) => lines,
            None => json.encounter@,
        }
    }
}

/// The title over the output of a metadata file.
pub fn json_title<P>(json: &ValidatedJson<P>, user: Option<&str>, auto: bool) -> (r: String)
    ensures
        r@ == json_title_text(*json, opt_str(user), auto),
{
    if auto {
        let base = match &json.job {
            Some(job) => cat4(json.encounter.as_str(), "/", job.as_str(), " POV"),
            None => json.encounter.as_str().to_owned(),
        };
        match user {
            Some(lines) => cat3(base.as_str(), "/", lines),
            None => base,
        }
    } else {
        match user {
            Some(lines) => lines.to_owned(),
            None => json.encounter.as_str().to_owned(),
        }
    }
}

/// A letter of ASCII in lower case.
pub open spec fn lower(b: u8) -> int {
    if 65 <= b <= 90 {
        b + 32
    } else {
        b as int
    }
}

/// Whether a name ends in `.json`, in whatever case, with something before it.
pub open spec fn has_json_extension(name: Seq<u8>) -> bool {
    let n = name.len() as int;
    &&& n > 5
    &&& name[n - 5] == 46
    &&& lower(name[n - 4]) == 106
    &&& lower(name[n - 3]) == 115
    &&& lower(name[n - 2]) == 111
    &&& lower(name[n - 1]) == 110
}

fn is_letter(b: u8, small: u8, big: u8) -> (r: bool)
    requires
        97 <= small <= 122,
        big == small - 32,
    ensures
        r == (lower(b) == small),
{
    b == small || b == big
}

fn json_extension(name: &Vec<u8>) -> (r: bool)
    ensures
        r == has_json_extension(name@),
{
    let n = name.len();
    n > 5 && name[n - 5] == 46 && is_letter(name[n - 4], 106, 74) && is_letter(
        name[n - 3],
        115,
        83,
    ) && is_letter(name[n - 2], 111, 79) && is_letter(name[n - 1], 110, 78)
}

/// Whether an entry of a directory is a metadata file.
pub open spec fn is_json_file<P>(entry: DirEntry<P>) -> bool {
    entry.info.is_file && has_json_extension(entry.name@)
}

/// The metadata files among the entries of a directory, by position, in the
/// order of their names. There must be one.
///
/// `read` is what came of reading the directory; it is not looked at where
/// there is no directory.
pub fn list_json_files<P>(dir: &PathInfo<P>, read: Result<&Vec<DirEntry<P>>, &str>) -> (r: Result<
    Vec<usize>,
    LimitcutError,
>)
    ensures
        match r {
            Ok(order) => {
                &&& dir.exists && dir.is_dir
                &&& read is Ok
                &&& is_listing(order@, read->Ok_0@, |e: DirEntry<P>| is_json_file(e))
                &&& order@.len() > 0
            },
            Err(LimitcutError::JsonDirNotFound(p)) => !dir.exists && p@ == dir.text@,
            Err(LimitcutError::JsonDirNotADir(p)) => dir.exists && !dir.is_dir && p@ == dir.text@,
            Err(LimitcutError::JsonDirReadFailed { path, source }) => {
                &&& dir.exists && dir.is_dir
                &&& read is Err && source@ == read->Err_0@
                &&& path@ == dir.text@
            },
            Err(LimitcutError::NoJsonFilesFound(p)) => {
                &&& dir.exists && dir.is_dir
                &&& read is Ok
                &&& forall|i: int|
                    0 <= i < read->Ok_0@.len() ==> !is_json_file(#[trigger] read->Ok_0@[i])
                &&& p@ == dir.text@
            },
            Err(_) => false,
        },
{
    if !dir.exists {
        return Err(LimitcutError::JsonDirNotFound(dir.text.as_str().to_owned()));
    }
    if !dir.is_dir {
        return Err(LimitcutError::JsonDirNotADir(dir.text.as_str().to_owned()));
    }
    let entries = match read {
        Ok(entries) => entries,
        Err(source) => {
            return Err(
                LimitcutError::JsonDirReadFailed {
                    path: dir.text.as_str().to_owned(),
                    source: source.to_owned(),
                },
            );
        },
    };
    let ghost chosen = |e: DirEntry<P>| is_json_file(e);
    let mut keep: Vec<bool> = Vec::new();
    let mut i: usize = 0;
    while i < entries.len()
        invariant
            i <= entries.len(),
            keep.len() == i,
            chosen == (|e: DirEntry<P>| is_json_file(e)),
            forall|k: int| 0 <= k < i ==> #[trigger] keep@[k] == chosen(entries@[k]),
        decreases entries.len() - i,
    {
        keep.push(entries[i].info.is_file && json_extension(&entries[i].name));
        i += 1;
    }
    let order = list_kept(entries, &keep, Ghost(chosen));
    if order.len() == 0 {
        assert forall|i: int| 0 <= i < entries@.len() implies !is_json_file(
            #[trigger] entries@[i],
        ) by {
            if chosen(entries@[i]) {
                assert(exists|j: int| 0 <= j < order@.len() && #[trigger] order@[j] == i);
            }
        }
        return Err(LimitcutError::NoJsonFilesFound(dir.text.as_str().to_owned()));
    }
    Ok(order)
}

/// What the user is told at the end of a batch.
pub fn batch_summary(succeeded: usize, failed: usize) -> (r: String)
    ensures
        r@ == "Batch complete: "@ + dec(succeeded as nat) + "/"@ + dec((succeeded + failed) as nat)
            + " succeeded"@,
{
    let total: u128 = succeeded as u128 + failed as u128;
    let mut out = "Batch complete: ".to_owned();
    out.append(decimal(succeeded as u128).as_str());
    out.append("/");
    out.append(decimal(total).as_str());
    out.append(" succeeded");
    out
}

// ── Inputs and outputs ───────────────────────────────────────────────────

/// A video to work on must be there, and be a file.
pub fn validate_video_input<P>(path: &PathInfo<P>) -> (r: Result<(), LimitcutError>)
    ensures
        match r {
            Ok(_) => path.exists && path.is_file,
            Err(e) => is_input_error(e, *path),
        },
{
    if !path.exists {
        return Err(LimitcutError::InputNotFound(path.text.as_str().to_owned()));
    }
    if !path.is_file {
        return Err(LimitcutError::InputNotAFile(path.text.as_str().to_owned()));
    }
    Ok(())
}

/// Whether `e` is the error for a video that is not there or no file.
pub open spec fn is_input_error<P>(e: LimitcutError, path: PathInfo<P>) -> bool {
    match e {
        LimitcutError::InputNotFound(p) => !path.exists && p@ == path.text@,
        LimitcutError::InputNotAFile(p) => path.exists && !path.is_file && p@ == path.text@,
        _ => false,
    }
}

/// Whether the output may replace what is there.
pub open spec fn overwrites<P>(args: Args<P>, config: Config<P>) -> bool {
    args.overwrite || config.overwrite == Some(true)
}

/// Whether the output may replace what is there.
pub fn may_overwrite<P>(args: &Args<P>, config: &Config<P>) -> (r: bool)
    ensures
        r == overwrites(*args, *config),
{
    args.overwrite || match config.overwrite {
        Some(b) => b,
        None => false,
    }
}

/// Check that the output can go where it should, and say which directory to
/// create for it, if any.
pub fn ensure_output_path<'a, P>(output: &'a PathInfo<P>, overwrite: bool) -> (r: Result<
    Option<&'a P>,
    LimitcutError,
>)
    ensures
        match r {
            Ok(dir) => {
                &&& !output.exists || overwrite
                &&& output.parent matches Some(p) ==> !p.exists || p.is_dir
                &&& match dir {
                    Some(d) => named_dir(*output) == Some(*d),
                    None => named_dir(*output) is None,
                }
            },
            Err(LimitcutError::OutputExists(p)) => output.exists && !overwrite && p@
                == output.text@,
            Err(LimitcutError::OutputDirNotADirectory(p)) => {
                &&& !output.exists || overwrite
                &&& output.parent is Some && output.parent->0.exists && !output.parent->0.is_dir
                &&& p@ == output.parent->0.text@
            },
            Err(_) => false,
        },
{
    if output.exists && !overwrite {
        return Err(LimitcutError::OutputExists(output.text.as_str().to_owned()));
    }
    match &output.parent {
        Some(parent) => {
            if parent.exists && !parent.is_dir {
                return Err(
                    LimitcutError::OutputDirNotADirectory(parent.text.as_str().to_owned()),
                );
            }
            if parent.text.as_str().is_empty() {
                Ok(None)
            } else {
                Ok(Some(&parent.path))
            }
        },
        None => Ok(None),
    }
}

/// Where the output of two videos goes: where the user says, else by its
/// default name into the directory that the user or the configuration names,
/// else beside the first video.
pub open spec fn normal_output<P>(
    args: Args<P>,
    config: Config<P>,
    pre_video: PathInfo<P>,
) -> OutputView<P> {
    let name = seq![stem_text(pre_video) + "_combined.mp4"@];
    match args.output {
        Some(path) => OutputView { dir: Some(path), parts: Seq::empty() },
        None => match args.output_dir {
            Some(dir) => OutputView { dir: Some(dir), parts: name },
            None => match config.output_dir {
                Some(dir) => OutputView { dir: Some(dir), parts: name },
                None => OutputView { dir: named_dir(pre_video), parts: name },
            },
        },
    }
}

/// Where the output of two videos goes.
pub fn resolve_normal_output_path<'a, P>(
    args: &'a Args<P>,
    config: &'a Config<P>,
    pre_video: &'a PathInfo<P>,
) -> (r: OutputPath<'a, P>)
    ensures
        r@ == normal_output(*args, *config, *pre_video),
{
    if let Some(explicit) = &args.output {
        return just(explicit);
    }
    if let Some(dir) = &args.output_dir {
        return one_under(Some(dir), default_output_filename(pre_video));
    }
    if let Some(dir) = &config.output_dir {
        return one_under(Some(dir), default_output_filename(pre_video));
    }
    default_output_path(pre_video)
}

/// The directory below which the output of a metadata file goes: the one that
/// the user names, else the one that the configuration names, else that of
/// the metadata file.
pub open spec fn output_root<P>(
    args: Args<P>,
    config: Config<P>,
    json: PathInfo<P>,
    here: P,
) -> P {
    match args.output_dir {
        Some(dir) => dir,
        None => match config.output_dir {
            Some(dir) => dir,
            None => home_of(json, here),
        },
    }
}

/// The directory below which the output of a metadata file goes. `here` is
/// the current directory.
pub fn resolve_json_output_root<'a, P>(
    args: &'a Args<P>,
    config: &'a Config<P>,
    json: &'a PathInfo<P>,
    here: &'a P,
) -> (r: &'a P)
    ensures
        *r == output_root(*args, *config, *json, *here),
{
    if let Some(dir) = &args.output_dir {
        return dir;
    }
    if let Some(dir) = &config.output_dir {
        return dir;
    }
    home_dir(json, here)
}

/// Where the output of a descriptor goes.
pub fn resolve_instapost_output_path<'a, P>(
    args: &'a Args<P>,
    config: &'a Config<P>,
    validated: &ValidatedInstapostJson<P>,
    json: &'a PathInfo<P>,
    here: &'a P,
) -> (r: OutputPath<'a, P>)
    ensures
        r@ == match args.output {
            Some(path) => OutputView { dir: Some(path), parts: Seq::empty() },
            None => OutputView {
                dir: Some(output_root(*args, *config, *json, *here)),
                parts: instapost_output_parts(*validated),
            },
        },
{
    if let Some(explicit) = &args.output {
        return just(explicit);
    }
    derive_instapost_output_path(validated, resolve_json_output_root(args, config, json, here))
}

// ── Settings ─────────────────────────────────────────────────────────────

/// The regions to blur: those of the command line, else those of the
/// configuration.
pub open spec fn blurs_of<P>(args: Args<P>, config: Config<P>) -> Seq<BlurRegion> {
    if args.blur@.len() == 0 {
        config.blur@
    } else {
        args.blur@
    }
}

/// The regions to blur.
pub fn resolve_blurs<'a, P>(args: &'a Args<P>, config: &'a Config<P>) -> (r: &'a Vec<BlurRegion>)
    ensures
        r@ == blurs_of(*args, *config),
{
    if args.blur.len() == 0 {
        &config.blur
    } else {
        &args.blur
    }
}

/// The value of the command line, else that of the configuration, else the
/// built-in one.
pub open spec fn setting(
    arg: Option<Binary64>,
    config: Option<Binary64>,
    default: Binary64,
) -> Binary64 {
    match arg {
        Some(t) => t,
        None => match config {
            Some(t) => t,
            None => default,
        },
    }
}

fn resolve_setting(arg: Option<Binary64>, config: Option<Binary64>, default: Binary64) -> (r:
    Binary64)
    ensures
        r == setting(arg, config, default),
{
    match arg {
        Some(t) => t,
        None => match config {
            Some(t) => t,
            None => default,
        },
    }
}

/// The encoder that was asked for: on the command line, else in the
/// configuration.
pub open spec fn encoder_asked_for<P>(args: Args<P>, config: Config<P>) -> Option<Seq<char>> {
    match args.encoder {
        Some(name) => Some(name@),
        None => match config.encoder {
            Some(name) => Some(name@),
            None => None,
        },
    }
}

/// The encoder that was asked for, if any.
pub fn requested_encoder<'a, P>(args: &'a Args<P>, config: &'a Config<P>) -> (r: Option<&'a str>)
    ensures
        opt_str(r) == encoder_asked_for(*args, *config),
{
    match &args.encoder {
        Some(name) => Some(name.as_str()),
        None => match &config.encoder {
            Some(name) => Some(name.as_str()),
            None => None,
        },
    }
}

/// The encoder that a name stands for, in its full or a short form; the
/// software encoder for a name that stands for none.
pub open spec fn named_encoder(name: Seq<char>) -> EncoderView {
    match canonical_encoder(name) {
        Some(full) => encoder_view(full),
        None => libx264_view(),
    }
}

/// The encoder to use: the one that was asked for, else the best that the
/// output of `ffmpeg -encoders` lists.
pub fn resolve_encoder(requested: Option<&str>, encoders: &str) -> (r: EncoderConfig)
    ensures
        r@ == match requested {
            Some(name) => named_encoder(name@),
            None => best_listed(encoders@),
        },
{
    match requested {
        Some(name) => match parse_encoder_name(name) {
            Ok(full) => EncoderConfig::from_name(full.as_str()),
            Err(_) => EncoderConfig::libx264(),
        },
        None => detect_best_encoder(encoders),
    }
}

// ── Combining two videos ─────────────────────────────────────────────────

/// What is to be done with two videos, or with one.
#[derive(Debug)]
pub enum Start<'a> {
    /// Render one frame, and no more.
    Preview { timestamp: Binary64, blurs: &'a Vec<BlurRegion> },
    /// Go on to encode.
    Encode { blurs: &'a Vec<BlurRegion> },
}

/// Whether a run over valid inputs starts like this.
pub open spec fn is_start<P>(
    r: Result<Start, LimitcutError>,
    args: Args<P>,
    config: Config<P>,
) -> bool {
    match r {
        Ok(Start::Preview { timestamp, blurs }) => {
            &&& args.preview_blur == Some(timestamp)
            &&& blurs@ == blurs_of(args, config)
            &&& blurs@.len() > 0
        },
        Ok(Start::Encode { blurs }) => args.preview_blur is None && blurs@ == blurs_of(
            args,
            config,
        ),
        Err(LimitcutError::PreviewBlurWithoutRegions) => args.preview_blur is Some && blurs_of(
            args,
            config,
        ).len() == 0,
        Err(_) => false,
    }
}

/// How a run over valid inputs starts: with a preview if one is asked for,
/// which must have something to blur.
pub fn start<'a, P>(args: &'a Args<P>, config: &'a Config<P>) -> (r: Result<
    Start<'a>,
    LimitcutError,
>)
    ensures
        is_start(r, *args, *config),
{
    let blurs = resolve_blurs(args, config);
    match args.preview_blur {
        Some(timestamp) => {
            if blurs.len() == 0 {
                Err(LimitcutError::PreviewBlurWithoutRegions)
            } else {
                Ok(Start::Preview { timestamp, blurs })
            }
        },
        None => Ok(Start::Encode { blurs }),
    }
}

/// How a run over two videos starts. Both must be there, the first is looked
/// at first.
pub fn start_single<'a, P>(
    pre_video: &PathInfo<P>,
    post_video: &PathInfo<P>,
    args: &'a Args<P>,
    config: &'a Config<P>,
) -> (r: Result<Start<'a>, LimitcutError>)
    ensures
        if !(pre_video.exists && pre_video.is_file) {
            r is Err && is_input_error(r->Err_0, *pre_video)
        } else if !(post_video.exists && post_video.is_file) {
            r is Err && is_input_error(r->Err_0, *post_video)
        } else {
            is_start(r, *args, *config)
        },
{
    match validate_video_input(pre_video) {
        Ok(_) => {},
        Err(e) => {
            return Err(e);
        },
    }
    match validate_video_input(post_video) {
        Ok(_) => {},
        Err(e) => {
            return Err(e);
        },
    }
    start(args, config)
}

/// How a run over one video starts. It must be there.
pub fn start_single_input<'a, P>(
    input_video: &PathInfo<P>,
    args: &'a Args<P>,
    config: &'a Config<P>,
) -> (r: Result<Start<'a>, LimitcutError>)
    ensures
        if !(input_video.exists && input_video.is_file) {
            r is Err && is_input_error(r->Err_0, *input_video)
        } else {
            is_start(r, *args, *config)
        },
{
    match validate_video_input(input_video) {
        Ok(_) => {},
        Err(e) => {
            return Err(e);
        },
    }
    start(args, config)
}

/// What the user is told where no cut point could be found.
pub fn overlap_hint(error: &LimitcutError) -> (r: String)
    ensures
        r@ == error.text()
            + "\n\nHint: make sure both videos share overlapping audio. The end of PRE_VIDEO and the start of POST_VIDEO must cover the same audio segment."@,
{
    cat2(
        error.message().as_str(),
        "\n\nHint: make sure both videos share overlapping audio. The end of PRE_VIDEO and the start of POST_VIDEO must cover the same audio segment.",
    )
}

/// The times of a combined video.
#[derive(Debug, Clone, Copy, PartialEq, Eq, Structural)]
pub struct CombinePlan {
    pub cut_point_secs: Binary64,
    pub fadein: Binary64,
    pub fadeout: Binary64,
    /// Time of black at the start of the output.
    pub black_hold: Binary64,
    /// Time to seek into the pre-video.
    pub pre_seek_secs: Binary64,
    pub estimated_total_secs: Binary64,
}

/// The time of black that was asked for.
pub open spec fn hold_asked_for<P>(args: Args<P>, config: Config<P>) -> Binary64 {
    setting(args.black_hold, config.black_hold, zero())
}

/// Whether more black was asked for than is shown.
pub open spec fn is_trimmed(hold: Binary64) -> bool {
    less(whole(MAX_BLACK_HOLD as nat), hold)
}

/// How far to seek into the pre-video, so that no more than [`MAX_BLACK_HOLD`]
/// of the black asked for is left.
pub open spec fn seek_for(hold: Binary64) -> Binary64 {
    if is_trimmed(hold) {
        difference(hold, whole(MAX_BLACK_HOLD as nat))
    } else {
        zero()
    }
}

/// The black that is left behind the seek.
pub open spec fn hold_left(hold: Binary64) -> Binary64 {
    if is_trimmed(hold) {
        whole(MAX_BLACK_HOLD as nat)
    } else {
        hold
    }
}

/// The plan for a cut point.
pub open spec fn is_plan<P>(
    plan: CombinePlan,
    args: Args<P>,
    config: Config<P>,
    cut: Binary64,
    post_duration: Binary64,
) -> bool {
    &&& plan.cut_point_secs == cut
    &&& plan.fadein == setting(args.fadein, config.fadein, whole(1))
    &&& plan.fadeout == setting(args.fadeout, config.fadeout, whole(1))
    &&& plan.black_hold == hold_left(hold_asked_for(args, config))
    &&& plan.pre_seek_secs == seek_for(hold_asked_for(args, config))
    &&& plan.estimated_total_secs == sum(difference(cut, plan.pre_seek_secs), post_duration)
}

/// What the user is told where black is skipped and not shown.
pub fn trim_message<P>(args: &Args<P>, config: &Config<P>) -> (r: Option<String>)
    ensures
        match r {
            Some(message) => {
                let hold = hold_asked_for(*args, *config);
                &&& is_trimmed(hold)
                &&& message@ == "Auto-trimming black hold: "@ + fixed_text(hold, 1) + "s → "@
                    + fixed_text(hold_left(hold), 1) + "s (seeking "@ + fixed_text(
                    seek_for(hold),
                    1,
                ) + "s into pre-video)"@
            },
            None => !is_trimmed(hold_asked_for(*args, *config)),
        },
{
    let hold = resolve_setting(args.black_hold, config.black_hold, Binary64::zero());
    let max = Binary64::whole(MAX_BLACK_HOLD as u64);
    if !max.is_less(hold) {
        return None;
    }
    let mut out = "Auto-trimming black hold: ".to_owned();
    out.append(hold.fixed(1).as_str());
    out.append("s → ");
    out.append(max.fixed(1).as_str());
    out.append("s (seeking ");
    out.append(hold.minus(max).fixed(1).as_str());
    out.append("s into pre-video)");
    Some(out)
}

/// The times of a combined video, given the cut point and the length of the
/// post-video. The black must not reach beyond the cut point.
pub fn plan_single<P>(
    args: &Args<P>,
    config: &Config<P>,
    found: &CorrelationResult,
    post_duration: Binary64,
) -> (r: Result<CombinePlan, LimitcutError>)
    ensures
        match r {
            Ok(plan) => {
                &&& !less(found.cut_point_secs, hold_asked_for(*args, *config))
                &&& is_plan(plan, *args, *config, found.cut_point_secs, post_duration)
            },
            Err(LimitcutError::BlackHoldExceedsCutPoint { hold, cut }) => {
                &&& less(found.cut_point_secs, hold_asked_for(*args, *config))
                &&& hold == hold_asked_for(*args, *config)
                &&& cut == found.cut_point_secs
            },
            Err(_) => false,
        },
{
    let cut = found.cut_point_secs;
    let fadein = resolve_setting(args.fadein, config.fadein, Binary64::whole(1));
    let fadeout = resolve_setting(args.fadeout, config.fadeout, Binary64::whole(1));
    let hold = resolve_setting(args.black_hold, config.black_hold, Binary64::zero());
    if cut.is_less(hold) {
        return Err(LimitcutError::BlackHoldExceedsCutPoint { hold, cut });
    }
    let max = Binary64::whole(MAX_BLACK_HOLD as u64);
    let (pre_seek_secs, black_hold) = if max.is_less(hold) {
        (hold.minus(max), max)
    } else {
        (Binary64::zero(), hold)
    };
    let estimated_total_secs = cut.minus(pre_seek_secs).plus(post_duration);
    Ok(
        CombinePlan {
            cut_point_secs: cut,
            fadein,
            fadeout,
            black_hold,
            pre_seek_secs,
            estimated_total_secs,
        },
    )
}

impl CombinePlan {
    /// The parameters of the encode.
    pub fn params<'a, P>(
        &self,
        ffmpeg: &'a P,
        pre: &'a P,
        post: &'a P,
        output: &'a P,
        encoder: &'a EncoderConfig,
        blurs: &'a [BlurRegion],
        title: Option<&'a str>,
    ) -> (r: ConcatParams<'a, P>)
        ensures
            r == (ConcatParams {
                ffmpeg,
                pre,
                post,
                output,
                cut_point_secs: self.cut_point_secs,
                estimated_total_secs: self.estimated_total_secs,
                encoder,
                blurs,
                fadein: self.fadein,
                fadeout: self.fadeout,
                black_hold: self.black_hold,
                title,
                pre_seek_secs: self.pre_seek_secs,
            }),
    {
        ConcatParams {
            ffmpeg,
            pre,
            post,
            output,
            cut_point_secs: self.cut_point_secs,
            estimated_total_secs: self.estimated_total_secs,
            encoder,
            blurs,
            fadein: self.fadein,
            fadeout: self.fadeout,
            black_hold: self.black_hold,
            title,
            pre_seek_secs: self.pre_seek_secs,
        }
    }
}

/// A duration in minutes and seconds: whole minutes, and what is left over
/// rounded to whole seconds, in two characters at least.
pub open spec fn clock_text(duration: Binary64) -> Seq<char> {
    floor_text(quotient(duration, whole(60))) + ":"@ + sixtieths_text(duration)
}

/// What the user is told of a finished output.
pub fn done_message(output: &str, duration: Binary64, result: &ConcatResult) -> (r: String)
    ensures
        r@ == "Done. Output: "@ + output@ + " ("@ + clock_text(duration) + " min, encoded in "@
            + fixed_text(result.encode_time, 1) + "s)"@,
{
    let mut clock = duration.divide(Binary64::whole(60)).floor();
    clock.append(":");
    clock.append(duration.sixtieths().as_str());
    let mut out = "Done. Output: ".to_owned();
    out.append(output);
    out.append(" (");
    out.append(clock.as_str());
    out.append(" min, encoded in ");
    out.append(result.encode_time.fixed(1).as_str());
    out.append("s)");
    out
}

// ── InstaPost ────────────────────────────────────────────────────────────

/// The effects on the video of a descriptor.
#[derive(Debug, Clone, Copy, PartialEq, Eq, Structural)]
pub struct InstapostVideoEffects {
    pub fadein: Binary64,
    pub fadeout: Binary64,
    pub black_hold: Binary64,
}

/// None: nothing but blur regions is applied.
pub fn instapost_video_effects() -> (r: InstapostVideoEffects)
    ensures
        r.fadein == zero(),
        r.fadeout == zero(),
        r.black_hold == zero(),
{
    InstapostVideoEffects {
        fadein: Binary64::zero(),
        fadeout: Binary64::zero(),
        black_hold: Binary64::zero(),
    }
}

/// The encoder for the video of a descriptor. An encoder that was asked for,
/// on the command line or in the configuration, is passed over.
pub fn resolve_instapost_encoder<P>(
    _args: &Args<P>,
    _config: &Config<P>,
    video_mode: DiscordVideoMode,
) -> (r: EncoderConfig)
    ensures
        r@ == (EncoderView {
            display_name: match video_mode {
                DiscordVideoMode::P1080 => "libx264 (Discord 1080p profile)"@,
                DiscordVideoMode::P720 => "libx264 (Discord 720p profile)"@,
            },
            ..libx264_view()
        }),
{
    match video_mode {
        DiscordVideoMode::P1080 => EncoderConfig::discord_1080p(),
        DiscordVideoMode::P720 => EncoderConfig::discord_720p(),
    }
}

/// The size of a posted video: the one that was asked for, else 720p.
pub fn discord_video_mode<P>(config: &Config<P>) -> (r: DiscordVideoMode)
    ensures
        r == match config.discord_video_mode {
            Some(mode) => mode,
            None => DiscordVideoMode::P720,
        },
{
    match config.discord_video_mode {
        Some(mode) => mode,
        None => DiscordVideoMode::P720,
    }
}

pub fn discord_video_mode_label(mode: DiscordVideoMode) -> (r: &'static str)
    ensures
        r@ == match mode {
            DiscordVideoMode::P1080 => "1080p"@,
            DiscordVideoMode::P720 => "720p"@,
        },
{
    match mode {
        DiscordVideoMode::P1080 => "1080p",
        DiscordVideoMode::P720 => "720p",
    }
}

/// The height of a posted video.
pub open spec fn height_of(mode: DiscordVideoMode) -> u32 {
    match mode {
        DiscordVideoMode::P1080 => 1080,
        DiscordVideoMode::P720 => 720,
    }
}

pub fn discord_output_height(mode: DiscordVideoMode) -> (r: u32)
    ensures
        r == height_of(mode),
{
    match mode {
        DiscordVideoMode::P1080 => 1080,
        DiscordVideoMode::P720 => 720,
    }
}

/// The parameters of the encode of a descriptor's video, given its length: the
/// whole of it, without effects, scaled to the size of a posted video.
pub fn single_input_params<'a, P>(
    ffmpeg: &'a P,
    input: &'a P,
    output: &'a P,
    input_duration: Binary64,
    encoder: &'a EncoderConfig,
    blurs: &'a [BlurRegion],
    video_mode: DiscordVideoMode,
) -> (r: SingleInputParams<'a, P>)
    ensures
        r == (SingleInputParams {
            ffmpeg,
            input,
            output,
            estimated_total_secs: at_least_zero(input_duration),
            encoder,
            blurs,
            fadein: zero(),
            fadeout: zero(),
            black_hold: zero(),
            title: None,
            input_seek_secs: zero(),
            output_height: Some(height_of(video_mode)),
        }),
{
    let effects = instapost_video_effects();
    SingleInputParams {
        ffmpeg,
        input,
        output,
        estimated_total_secs: input_duration.or_zero(),
        encoder,
        blurs,
        fadein: effects.fadein,
        fadeout: effects.fadeout,
        black_hold: effects.black_hold,
        title: None,
        input_seek_secs: Binary64::zero(),
        output_height: Some(discord_output_height(video_mode)),
    }
}

/// Where to post, if posts are enabled.
pub open spec fn webhook_of<P>(config: Config<P>) -> Option<Seq<char>> {
    if config.discord_enabled == Some(true) {
        match config.discord_webhook_url {
            Some(url) => Some(url@),
            None => None,
        }
    } else {
        None
    }
}

/// Where to post, if posts are enabled.
pub fn discord_webhook_url<P>(config: &Config<P>) -> (r: Option<&str>)
    ensures
        opt_str(r) == webhook_of(*config),
{
    let enabled = match config.discord_enabled {
        Some(b) => b,
        None => false,
    };
    if enabled {
        match &config.discord_webhook_url {
            Some(url) => Some(url.as_str()),
            None => None,
        }
    } else {
        None
    }
}

/// Whether a run is for real: no preview and no dry run.
pub open spec fn is_for_real<P>(args: Args<P>) -> bool {
    args.preview_blur is None && !args.dry_run
}

/// Where to post the output of this run, if anywhere.
pub fn instapost_discord_webhook<'a, P>(args: &Args<P>, config: &'a Config<P>) -> (r: Option<
    &'a str,
>)
    ensures
        opt_str(r) == if is_for_real(*args) {
            webhook_of(*config)
        } else {
            None
        },
{
    if args.preview_blur.is_some() || args.dry_run {
        None
    } else {
        discord_webhook_url(config)
    }
}

/// Whether this run uses a descriptor up.
pub fn instapost_should_consume<P>(args: &Args<P>) -> (r: bool)
    ensures
        r == is_for_real(*args),
{
    args.preview_blur.is_none() && !args.dry_run
}

/// The directory, beside a descriptor that was processed, that it is moved
/// to, if any.
pub fn instapost_status_dir<P>(args: &Args<P>, succeeded: bool) -> (r: Option<&'static str>)
    ensures
        opt_str(r) == if !is_for_real(*args) {
            None
        } else if succeeded {
            Some("done"@)
        } else {
            Some("failed"@)
        },
{
    if !instapost_should_consume(args) {
        None
    } else if succeeded {
        Some("done")
    } else {
        Some("failed")
    }
}

// ── Laws ─────────────────────────────────────────────────────────────────

/// The output never starts with more than [`MAX_BLACK_HOLD`] of black.
pub proof fn law_black_is_limited(hold: Binary64)
    ensures
        !less(whole(MAX_BLACK_HOLD as nat), hold_left(hold)),
{
}

/// No black is lost: what is not shown is skipped. Neither is negative where
/// the black asked for is not. Black of 2⁵⁵ seconds and more is left out: there
/// the numbers lie more than four seconds apart.
pub proof fn law_auto_trim(hold: Binary64)
    requires
        hold.is_finite(),
        hold.shift() <= 1076,
    ensures
        seek_for(hold).is_finite(),
        hold_left(hold).is_finite(),
        seek_for(hold).value() + hold_left(hold).value() == hold.value(),
        hold.value() >= 0 ==> seek_for(hold).value() >= 0 && hold_left(hold).value() >= 0,
{
    let four = whole(MAX_BLACK_HOLD as nat);
    law_whole_is_exact(MAX_BLACK_HOLD as nat);
    law_whole_is_exact(0);
    law_order_is_that_of_values(four, hold);
    law_order_is_that_of_values(zero(), zero());
    if is_trimmed(hold) {
        lemma_short_trim(hold);
    }
}

proof fn lemma_short_trim(hold: Binary64)
    requires
        hold.is_finite(),
        hold.shift() <= 1076,
        hold.value() > MAX_BLACK_HOLD * one(),
    ensures
        difference(hold, whole(MAX_BLACK_HOLD as nat)).is_finite(),
        difference(hold, whole(MAX_BLACK_HOLD as nat)).value() == hold.value() - MAX_BLACK_HOLD
            * one(),
{
    let s = hold.shift();
    let u = two_to(s) as int;
    let b = two_to((1076 - s) as nat) as int;
    law_whole_is_exact(MAX_BLACK_HOLD as nat);
    law_powers_of_two((1076 - s) as nat, s);
    assert(two_to(1076) == 4 * one()) by {
        reveal_with_fuel(two_to, 3);
    }
    assert(hold.value() == hold.digits() * u);
    let m = hold.digits() - b;
    assert(hold.digits() * u - b * u == m * u) by (nonlinear_arith)
        requires
            m == hold.digits() - b,
    ;
    assert(m >= 0) by (nonlinear_arith)
        requires
            m * u > 0,
            u > 0,
    ;
    law_short_difference_is_exact(hold, whole(MAX_BLACK_HOLD as nat), m as nat, s);
}

/// However much is skipped of the pre-video, it is no more than what lies
/// before the cut point, and what is read of it ends there, to within one part
/// in 2⁵³ of what is read.
pub proof fn law_pre_video_ends_at_cut_point<P>(
    plan: CombinePlan,
    args: Args<P>,
    config: Config<P>,
    cut: Binary64,
    post_duration: Binary64,
    params: ConcatParams<P>,
)
    requires
        cut.is_finite(),
        0 <= cut.value(),
        !less(cut, hold_asked_for(args, config)),
        is_plan(plan, args, config, cut, post_duration),
        params.cut_point_secs == plan.cut_point_secs,
        params.pre_seek_secs == plan.pre_seek_secs,
    ensures
        plan.pre_seek_secs.is_finite(),
        params.pre_duration().is_finite(),
        0 <= plan.pre_seek_secs.value() <= cut.value(),
        is_near(params.pre_duration().value(), cut.value() - plan.pre_seek_secs.value()),
{
    lemma_seek_ends_before(cut, hold_asked_for(args, config));
    law_difference_is_near(cut, plan.pre_seek_secs);
}

proof fn lemma_seek_ends_before(cut: Binary64, hold: Binary64)
    requires
        cut.is_finite(),
        0 <= cut.value(),
        !less(cut, hold),
    ensures
        seek_for(hold).is_finite(),
        0 <= seek_for(hold).value() <= cut.value(),
{
    let four = whole(MAX_BLACK_HOLD as nat);
    law_order_is_that_of_values(zero(), zero());
    if is_trimmed(hold) {
        assert(hold.is_finite()) by {
            law_whole_is_not_negative(MAX_BLACK_HOLD as nat);
        }
        law_whole_is_exact(MAX_BLACK_HOLD as nat);
        law_order_is_that_of_values(four, hold);
        law_order_is_that_of_values(cut, hold);
        law_difference_is_near(hold, four);
    }
}

/// The video of a descriptor is blurred and scaled, and nothing else is done
/// to its picture or its sound.
pub proof fn law_descriptor_video_is_blurred_and_scaled<P>(
    params: SingleInputParams<P>,
    video_mode: DiscordVideoMode,
)
    requires
        params.fadein == zero(),
        params.fadeout == zero(),
        params.black_hold == zero(),
        params.title is None,
        params.output_height == Some(height_of(video_mode)),
    ensures
        single_video_filters(params.fade(), params.output_height) == seq![
            "scale=-2:"@ + dec(height_of(video_mode) as nat),
        ],
        single_audio_filters(params.fade()) == Seq::<Seq<char>>::empty(),
        single_stages(params.blurs@, params.fade(), params.output_height).len()
            == params.blurs@.len() + 1,
{
    let scale = seq!["scale=-2:"@ + dec(height_of(video_mode) as nat)];
    assert(single_video_filters(params.fade(), params.output_height) =~= scale);
    assert(single_audio_filters(params.fade()) =~= Seq::<Seq<char>>::empty());
}

/// A setting of the command line holds whatever the configuration says.
pub proof fn law_command_line_overrides_configuration<P>(
    args: Args<P>,
    a: Config<P>,
    b: Config<P>,
    pre_video: PathInfo<P>,
    json: PathInfo<P>,
    here: P,
    default: Binary64,
)
    ensures
        args.fadein is Some ==> setting(args.fadein, a.fadein, default) == setting(
            args.fadein,
            b.fadein,
            default,
        ),
        args.fadeout is Some ==> setting(args.fadeout, a.fadeout, default) == setting(
            args.fadeout,
            b.fadeout,
            default,
        ),
        args.black_hold is Some ==> hold_asked_for(args, a) == hold_asked_for(args, b),
        args.encoder is Some ==> encoder_asked_for(args, a) == encoder_asked_for(args, b),
        args.blur@.len() > 0 ==> blurs_of(args, a) == blurs_of(args, b),
        args.overwrite ==> overwrites(args, a) && overwrites(args, b),
        args.output is Some || args.output_dir is Some ==> normal_output(args, a, pre_video)
            == normal_output(args, b, pre_video),
        args.output_dir is Some ==> output_root(args, a, json, here) == output_root(
            args,
            b,
            json,
            here,
        ),
{
}

/// Each mode comes of just the inputs that make it up: two videos, or one of
/// the four flags, or one video with `--preview-blur`. Any other inputs make up
/// none.
pub proof fn law_one_mode_for_each_kind_of_input<'a, P>(args: &'a Args<P>)
    ensures
        ({
            let (pre, post) = (args.pre_video is Some, args.post_video is Some);
            let (json, dir) = (args.json is Some, args.json_dir is Some);
            let (insta, watch) = (args.instapost is Some, args.watch_instapost is Some);
            let flagged = json || dir || insta || watch;
            let mode = mode_of(args);
            &&& (pre && post && !flagged) == (mode is Some && mode->0 is Combine)
            &&& (pre && !post && !flagged && args.preview_blur is Some) == (mode is Some
                && mode->0 is Preview)
            &&& (json && !pre && !post && !dir && !insta && !watch) == (mode is Some
                && mode->0 is Json)
            &&& (dir && !pre && !post && !json && !insta && !watch) == (mode is Some
                && mode->0 is JsonDir)
            &&& (insta && !pre && !post && !json && !dir && !watch) == (mode is Some
                && mode->0 is Instapost)
            &&& (watch && !pre && !post && !json && !dir && !insta) == (mode is Some
                && mode->0 is WatchInstapost)
        }),
        match mode_of(args) {
            Some(Mode::Preview { pre, timestamp }) => args.pre_video == Some(*pre)
                && args.preview_blur == Some(timestamp),
            Some(Mode::Combine { pre, post }) => args.pre_video == Some(*pre) && args.post_video
                == Some(*post),
            Some(Mode::Json(p)) => args.json == Some(*p),
            Some(Mode::JsonDir(p)) => args.json_dir == Some(*p),
            Some(Mode::Instapost(p)) => args.instapost == Some(*p),
            Some(Mode::WatchInstapost(p)) => args.watch_instapost == Some(*p),
            None => true,
        },
{
}

/// The lines of the title of a metadata file in a batch: those of the
/// encounter, that of the job with its point of view, and those that the user
/// gave. By itself it has the user's lines, or those of the encounter.
pub proof fn law_lines_of_a_json_title<P>(json: ValidatedJson<P>, user: Option<Seq<char>>)
    ensures
        pieces(json_title_text(json, user, true), '/') == pieces(json.encounter@, '/') + (
        match json.job {
            Some(job) => pieces(job@ + " POV"@, '/'),
            None => Seq::empty(),
        }) + (match user {
            Some(lines) => pieces(lines, '/'),
            None => Seq::empty(),
        }),
        user is Some ==> json_title_text(json, user, false) == user->0,
        user is None ==> json_title_text(json, user, false) == json.encounter@,
{
    assert("/"@ =~= seq!['/']) by {
        reveal_strlit("/");
    }
    let none = Seq::<Seq<char>>::empty();
    let base = match json.job {
        Some(job) => json.encounter@ + "/"@ + job@ + " POV"@,
        None => json.encounter@,
    };
    let of_job = match json.job {
        Some(job) => pieces(job@ + " POV"@, '/'),
        None => none,
    };
    if let Some(job) = json.job {
        assert(base =~= json.encounter@ + "/"@ + (job@ + " POV"@));
        law_split_in_parts(json.encounter@, job@ + " POV"@, '/');
    }
    assert(pieces(base, '/') =~= pieces(json.encounter@, '/') + of_job);
    if let Some(lines) = user {
        law_split_in_parts(base, lines, '/');
    } else {
        assert(pieces(base, '/') + none =~= pieces(base, '/'));
    }
}

/// A name has the extension `.json` just where it ends in a dot and those four
/// letters, each small or big, and has something before them.
pub proof fn law_json_extension_in_any_case(front: Seq<u8>, end: Seq<u8>)
    requires
        end.len() == 5,
    ensures
        has_json_extension(front + end) <==> {
            &&& front.len() > 0
            &&& end[0] == 46
            &&& end[1] == 106 || end[1] == 74
            &&& end[2] == 115 || end[2] == 83
            &&& end[3] == 111 || end[3] == 79
            &&& end[4] == 110 || end[4] == 78
        },
        forall|name: Seq<u8>| name.len() < 5 ==> !#[trigger] has_json_extension(name),
{
    let name = front + end;
    assert forall|i: int| 0 <= i < 5 implies name[front.len() + i] == #[trigger] end[i] by {}
}

/// Each time of a plan is the one of the command line, else that of the
/// configuration, else one second for the fades and none for the black. Of the
/// black at most four seconds are shown, and the rest is skipped. The output
/// lasts from there to the cut point, and then as long as the post-video.
pub proof fn law_times_of_a_plan<P>(
    plan: CombinePlan,
    args: Args<P>,
    config: Config<P>,
    cut: Binary64,
    post_duration: Binary64,
)
    requires
        is_plan(plan, args, config, cut, post_duration),
    ensures
        plan.cut_point_secs == cut,
        args.fadein is Some ==> plan.fadein == args.fadein->0,
        args.fadein is None && config.fadein is Some ==> plan.fadein == config.fadein->0,
        args.fadein is None && config.fadein is None ==> plan.fadein.value() == one(),
        args.fadeout is Some ==> plan.fadeout == args.fadeout->0,
        args.fadeout is None && config.fadeout is Some ==> plan.fadeout == config.fadeout->0,
        args.fadeout is None && config.fadeout is None ==> plan.fadeout.value() == one(),
        ({
            let hold = if args.black_hold is Some {
                args.black_hold->0
            } else if config.black_hold is Some {
                config.black_hold->0
            } else {
                zero()
            };
            &&& hold_asked_for(args, config) == hold
            &&& is_trimmed(hold) <==> less(whole(4), hold)
            &&& !less(whole(4), hold) ==> plan.black_hold == hold && plan.pre_seek_secs.value() == 0
                && !is_positive(plan.pre_seek_secs)
            &&& less(whole(4), hold) ==> plan.black_hold.value() == 4 * one()
                && plan.pre_seek_secs == difference(hold, whole(4))
        }),
        plan.estimated_total_secs == sum(difference(cut, plan.pre_seek_secs), post_duration),
{
    law_whole_is_exact(1);
    law_whole_is_exact(4);
    law_zero();
    law_order_is_that_of_values(zero(), zero());
}

/// What the command line leaves open the configuration says, and what both
/// leave open is as built in.
pub proof fn law_configuration_where_the_command_line_is_silent<P>(
    args: Args<P>,
    config: Config<P>,
    default: Binary64,
)
    ensures
        args.fadein is Some ==> setting(args.fadein, config.fadein, default) == args.fadein->0,
        args.fadein is None && config.fadein is Some ==> setting(
            args.fadein,
            config.fadein,
            default,
        ) == config.fadein->0,
        args.fadein is None && config.fadein is None ==> setting(
            args.fadein,
            config.fadein,
            default,
        ) == default,
        args.encoder is Some ==> encoder_asked_for(args, config) == Some(args.encoder->0@),
        args.encoder is None && config.encoder is Some ==> encoder_asked_for(args, config) == Some(
            config.encoder->0@,
        ),
        args.encoder is None && config.encoder is None ==> encoder_asked_for(args, config) is None,
        args.blur@.len() > 0 ==> blurs_of(args, config) == args.blur@,
        args.blur@.len() == 0 ==> blurs_of(args, config) == config.blur@,
        overwrites(args, config) <==> args.overwrite || config.overwrite == Some(true),
{
}

/// Where the output goes: to the path of the command line, else into the
/// directory of the command line, else into that of the configuration, else
/// beside the first video; its name is the stem of the first video with
/// `_combined.mp4` behind it. What comes of a metadata file goes below the same
/// directories, or where the metadata file is.
pub proof fn law_where_the_output_goes<P>(
    args: Args<P>,
    config: Config<P>,
    pre_video: PathInfo<P>,
    json: PathInfo<P>,
    here: P,
)
    ensures
        ({
            let out = normal_output(args, config, pre_video);
            let stem = if pre_video.stem is Some {
                pre_video.stem->0@
            } else {
                "output"@
            };
            let asked = if args.output_dir is Some {
                args.output_dir
            } else {
                config.output_dir
            };
            &&& args.output is Some ==> out.dir == args.output && out.parts.len() == 0
            &&& args.output is None ==> out.parts == seq![stem + "_combined.mp4"@]
            &&& args.output is None && asked is Some ==> out.dir == asked
            &&& args.output is None && asked is None ==> out.dir == if pre_video.parent is Some
                && pre_video.parent->0.text@.len() > 0 {
                Some(pre_video.parent->0.path)
            } else {
                None
            }
            &&& asked is Some ==> output_root(args, config, json, here) == asked->0
            &&& asked is None ==> output_root(args, config, json, here) == home_of(json, here)
        }),
{
}

/// How a run over valid inputs starts: it encodes where no preview is asked
/// for, else it shows the frame that was asked for, with the regions to blur,
/// of which there must be one.
pub proof fn law_start_of_a_run<P>(
    r: Result<Start, LimitcutError>,
    args: Args<P>,
    config: Config<P>,
)
    requires
        is_start(r, args, config),
    ensures
        ({
            let blurs = if args.blur@.len() > 0 {
                args.blur@
            } else {
                config.blur@
            };
            match args.preview_blur {
                None => r is Ok && r->Ok_0 is Encode && r->Ok_0->Encode_blurs@ == blurs,
                Some(t) => if blurs.len() > 0 {
                    r is Ok && r->Ok_0 is Preview && r->Ok_0->timestamp == t
                        && r->Ok_0->Preview_blurs@ == blurs
                } else {
                    r is Err && r->Err_0 is PreviewBlurWithoutRegions
                },
            }
        }),
{
}

/// A video that is not there is told apart from one that is no file, and each
/// is named.
pub proof fn law_input_errors_are_told_apart<P>(e: LimitcutError, path: PathInfo<P>)
    requires
        is_input_error(e, path),
    ensures
        !(path.exists && path.is_file),
        !path.exists ==> e is InputNotFound && e->InputNotFound_0@ == path.text@,
        path.exists ==> e is InputNotAFile && e->InputNotAFile_0@ == path.text@,
{
}

/// Posts go to the address of the configuration, where they are enabled, and
/// only of a run that neither shows a preview nor just prints its command.
pub proof fn law_posts_only_where_enabled<P>(args: Args<P>, config: Config<P>)
    ensures
        webhook_of(config) is Some <==> config.discord_enabled == Some(true)
            && config.discord_webhook_url is Some,
        webhook_of(config) is Some ==> webhook_of(config)->0 == config.discord_webhook_url->0@,
        is_for_real(args) <==> !args.dry_run && args.preview_blur is None,
        height_of(DiscordVideoMode::P1080) == 1080,
        height_of(DiscordVideoMode::P720) == 720,
{
}

/// An encoder is used by its full name or a short form of it; any other name
/// stands for the software encoder.
pub proof fn law_named_encoders(name: Seq<char>)
    ensures
        named_encoder(name).name == if name == "nvenc"@ || name == "h264_nvenc"@ {
            "h264_nvenc"@
        } else if name == "vaapi"@ || name == "h264_vaapi"@ {
            "h264_vaapi"@
        } else if name == "videotoolbox"@ || name == "h264_videotoolbox"@ {
            "h264_videotoolbox"@
        } else {
            "libx264"@
        },
{
    law_encoder_names(name);
    law_each_encoder_by_its_name("h264_nvenc"@);
    law_each_encoder_by_its_name("h264_vaapi"@);
    law_each_encoder_by_its_name("h264_videotoolbox"@);
    law_each_encoder_by_its_name("libx264"@);
}

/// A duration is shown as its whole minutes, a colon, and what is left over in
/// two digits of seconds.
pub proof fn law_durations_in_minutes_and_seconds(duration: Binary64)
    requires
        duration.is_finite(),
        !duration.is_negative(),
    ensures
        ({
            let text = clock_text(duration);
            let colon = text.len() - 3;
            let minutes = quotient(duration, whole(60));
            let (front, back) = (text.take(colon), text.skip(colon + 1));
            &&& 0 < colon
            &&& text[colon] == ':'
            &&& all_digits(front) && all_digits(back)
            &&& minutes.is_finite()
            &&& digits_value(front) * one() <= minutes.size() < (digits_value(front) + 1) * one()
            &&& 2 * (digits_value(back) * one() - duration.size() % (60 * one())) <= one()
            &&& 2 * (duration.size() % (60 * one()) - digits_value(back) * one()) <= one()
        }),
{
    let minutes = quotient(duration, whole(60));
    law_whole_is_exact(60);
    law_whole_is_not_negative(60);
    law_powers_of_two(0, 1074);
    law_quotient_shrinks(duration, whole(60));
    law_floor_text(minutes);
    law_sixtieths_text(duration);
    let (front, back) = (floor_text(minutes), sixtieths_text(duration));
    let text = clock_text(duration);
    assert(":"@ =~= seq![':']) by {
        reveal_strlit(":");
    }
    assert(text == front + ":"@ + back);
    assert(text.take(text.len() - 3) =~= front);
    assert(text.skip(text.len() - 2) =~= back);
}

/// Black of up to four seconds is all shown; of more, four seconds are shown
/// and the rest is skipped.
pub proof fn law_black_beyond_four_seconds_is_skipped(hold: Binary64)
    ensures
        !less(whole(4), hold) ==> hold_left(hold) == hold && seek_for(hold) == zero(),
        less(whole(4), hold) ==> hold_left(hold) == whole(4) && seek_for(hold) == difference(
            hold,
            whole(4),
        ),
        is_trimmed(hold) <==> less(whole(4), hold),
{
}

/// A metadata file is a file with that extension.
pub proof fn law_json_files<P>(entry: DirEntry<P>)
    ensures
        is_json_file(entry) <==> entry.info.is_file && has_json_extension(entry.name@),
{
}

} // verus!
