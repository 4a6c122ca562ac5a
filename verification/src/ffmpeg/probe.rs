//! What ffprobe is asked, and what its answers mean.

use vstd::prelude::*;

use crate::error::LimitcutError;
use crate::ffmpeg::command::{words, ArgView, CommandView, FfmpegCommand};
use crate::number::{parse_u32, read_number};
use crate::binary64::Binary64;
use crate::text::{pieces, split_on, texts, trim, trimmed};

verus! {

/// The arguments that ask for the duration of a media file.
pub open spec fn duration_args<P>(media: P) -> Seq<ArgView<P>> {
    words(
        seq![
            "-v"@,
            "error"@,
            "-show_entries"@,
            "format=duration"@,
            "-of"@,
            "default=noprint_wrappers=1:nokey=1"@,
        ],
    ).push(ArgView::File(media))
}

/// Build the command that asks for the duration of a media file in seconds.
pub fn build_duration_command<'a, P>(ffprobe: &'a P, media: &'a P) -> (cmd: FfmpegCommand<'a, P>)
    ensures
        cmd@ == (CommandView { program: *ffprobe, args: duration_args(*media) }),
{
    let mut cmd = FfmpegCommand::new(ffprobe);
    cmd.pair("-v", "error");
    cmd.pair("-show_entries", "format=duration");
    cmd.pair("-of", "default=noprint_wrappers=1:nokey=1");
    cmd.file(media);
    assert(cmd@.args =~= duration_args(*media));
    cmd
}

/// The text in which ffprobe answered for the duration.
pub fn duration_text(
    media: &str,
    success: bool,
    stdout: &str,
    stderr: String,
) -> (r: Result<String, LimitcutError>)
    ensures
        match r {
            Ok(raw) => success && raw@ == trimmed(stdout@),
            Err(LimitcutError::FfprobeFailed { path, stderr: text }) => !success && path@ == media@
                && text == stderr,
            Err(_) => false,
        },
{
    if success {
        Ok(trim(stdout))
    } else {
        Err(LimitcutError::FfprobeFailed { path: media.to_owned(), stderr })
    }
}

/// The duration that the text `raw` was read as, or why it could not be read.
pub fn duration_value(raw: String, parsed: Result<Binary64, String>) -> (r: Result<
    Binary64,
    LimitcutError,
>)
    ensures
        match parsed {
            Ok(d) => r == Ok::<Binary64, LimitcutError>(d),
            Err(why) => r == Err::<Binary64, LimitcutError>(
                LimitcutError::DurationParseFailed { raw, source: why },
            ),
        },
{
    match parsed {
        Ok(d) => Ok(d),
        Err(source) => Err(LimitcutError::DurationParseFailed { raw, source }),
    }
}

/// The arguments that ask for the resolution of a media file.
pub open spec fn resolution_args<P>(media: P) -> Seq<ArgView<P>> {
    words(
        seq![
            "-v"@,
            "error"@,
            "-select_streams"@,
            "v:0"@,
            "-show_entries"@,
            "stream=width,height"@,
            "-of"@,
            "csv=p=0:s=x"@,
        ],
    ).push(ArgView::File(media))
}

/// Build the command that asks for the resolution of the first video stream.
pub fn build_resolution_command<'a, P>(ffprobe: &'a P, media: &'a P) -> (cmd: FfmpegCommand<'a, P>)
    ensures
        cmd@ == (CommandView { program: *ffprobe, args: resolution_args(*media) }),
{
    let mut cmd = FfmpegCommand::new(ffprobe);
    cmd.pair("-v", "error");
    cmd.pair("-select_streams", "v:0");
    cmd.pair("-show_entries", "stream=width,height");
    cmd.pair("-of", "csv=p=0:s=x");
    cmd.file(media);
    assert(cmd@.args =~= resolution_args(*media));
    cmd
}

/// The side that a text stands for.
pub open spec fn read_side(s: Seq<char>) -> Option<nat> {
    read_number(trimmed(s), u32::MAX as nat)
}

/// The width and the height that a text stands for: two numbers with an `x`
/// between them.
pub open spec fn read_resolution(s: Seq<char>) -> Option<(nat, nat)> {
    let ps = pieces(trimmed(s), 'x');
    if ps.len() == 2 && read_side(ps[0]) is Some && read_side(ps[1]) is Some {
        Some((read_side(ps[0])->0, read_side(ps[1])->0))
    } else {
        None
    }
}

/// The resolution (width, height) that ffprobe answered with.
pub fn probe_resolution(
    media: &str,
    success: bool,
    stdout: &str,
    stderr: String,
) -> (r: Result<(u32, u32), LimitcutError>)
    ensures
        match r {
            Ok((w, h)) => success && read_resolution(stdout@) == Some((w as nat, h as nat)),
            Err(LimitcutError::ResolutionProbeFailed { path, stderr: text }) => !success && path@
                == media@ && text == stderr,
            Err(LimitcutError::ResolutionParseFailed { raw }) => success && read_resolution(stdout@)
                is None && raw@ == trimmed(stdout@),
            Err(_) => false,
        },
{
    if !success {
        return Err(LimitcutError::ResolutionProbeFailed { path: media.to_owned(), stderr });
    }
    let raw = trim(stdout);
    let parts = split_on(raw.as_str(), 'x');
    assert(parts@.len() == texts(parts@).len());
    if parts.len() != 2 {
        return Err(LimitcutError::ResolutionParseFailed { raw });
    }
    assert(texts(parts@)[0] == parts@[0]@ && texts(parts@)[1] == parts@[1]@);
    let width = parse_u32(trim(parts[0].as_str()).as_str());
    let height = parse_u32(trim(parts[1].as_str()).as_str());
    match (width, height) {
        (Some(w), Some(h)) => Ok((w, h)),
        _ => Err(LimitcutError::ResolutionParseFailed { raw }),
    }
}

// ── Laws ─────────────────────────────────────────────────────────────────

/// What ffprobe is asked, in order.
pub proof fn law_probe_commands_in_order<P>(media: P)
    ensures
        duration_args(media) == seq![
            ArgView::Text("-v"@),
            ArgView::Text("error"@),
            ArgView::Text("-show_entries"@),
            ArgView::Text("format=duration"@),
            ArgView::Text("-of"@),
            ArgView::Text("default=noprint_wrappers=1:nokey=1"@),
            ArgView::File(media),
        ],
        resolution_args(media) == seq![
            ArgView::Text("-v"@),
            ArgView::Text("error"@),
            ArgView::Text("-select_streams"@),
            ArgView::Text("v:0"@),
            ArgView::Text("-show_entries"@),
            ArgView::Text("stream=width,height"@),
            ArgView::Text("-of"@),
            ArgView::Text("csv=p=0:s=x"@),
            ArgView::File(media),
        ],
{
}

/// An answer is a resolution just where it has two parts with an `x` between
/// them, each a number: the width, then the height.
pub proof fn law_resolution_is_two_numbers(s: Seq<char>)
    ensures
        ({
            let ps = pieces(trimmed(s), 'x');
            let max = 0xffff_ffffnat;
            match read_resolution(s) {
                Some((w, h)) => {
                    &&& ps.len() == 2
                    &&& read_number(trimmed(ps[0]), max) == Some(w)
                    &&& read_number(trimmed(ps[1]), max) == Some(h)
                },
                None => ps.len() != 2 || read_number(trimmed(ps[0]), max) is None || read_number(
                    trimmed(ps[1]),
                    max,
                ) is None,
            }
        }),
{
}

} // verus!
