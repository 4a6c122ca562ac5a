//! Filter graphs and commands for ffmpeg.

use vstd::prelude::*;

use crate::cli::BlurRegion;
use crate::error::LimitcutError;
use crate::ffmpeg::command::{time, time_text, words, ArgView, CommandView, FfmpegCommand};
use crate::ffmpeg::detect::EncoderConfig;
use crate::number::{
    dec, dec_signed, decimal, decimal_signed, is_digit, lemma_dec, parse_u64, read_number,
    zero_padded,
};
use crate::binary64::writing::{sign_text, ten_to};
use crate::binary64::{
    at_least_zero, difference, hundredfold, is_near, is_positive, law_below_whole,
    law_difference_is_near, law_order_is_that_of_values, law_signs, law_whole_is_exact,
    law_whole_is_not_negative, less, nearest, one, quotient, whole, zero, Binary64,
};
use crate::shell::{command_line, law_printed_command_reads_back, printed, shell_words};
use crate::text::{
    cat2, cat3, chars_of, join, joined, law_nothing_to_replace, lemma_join_ends,
    lemma_occurs_in_join, lemma_pieces_nonempty, lemma_texts_push, occurs, occurs_at, pieces,
    replaced, split_on, starts_with, text_from, texts, trim, trimmed,
};

verus! {

/// Fixed boxblur luma radius applied to every blur region.
pub const BLUR_LUMA_RADIUS: u32 = 10;

// ── Filter graph construction ────────────────────────────────────────────

/// Parameters that control fade/title behaviour in the filter graph.
#[derive(Debug, Clone, Copy)]
pub struct FadeParams<'a> {
    /// Fade-in duration (always applied).
    pub fadein: Binary64,
    /// Fade-out duration (always applied).
    pub fadeout: Binary64,
    /// Time of the pre-video rendered as black before fade-in (zero = none).
    pub black_hold: Binary64,
    /// Title text displayed during black + fade-in period. Lines separated by '/'.
    pub title: Option<&'a str>,
    /// Total duration of the output video (needed for fade-out start time).
    pub total_duration_secs: Binary64,
}

impl<'a> Default for FadeParams<'a> {
    fn default() -> (r: Self)
        ensures
            r.fadein == whole(1),
            r.fadeout == whole(1),
            r.black_hold == zero(),
            r.title is None,
            r.total_duration_secs == zero(),
    {
        FadeParams {
            fadein: Binary64::whole(1),
            fadeout: Binary64::whole(1),
            black_hold: Binary64::zero(),
            title: None,
            total_duration_secs: Binary64::zero(),
        }
    }
}

/// The label of the video stream behind the first `i` blur regions.
pub open spec fn chain_label(i: nat) -> Seq<char> {
    "cv"@ + dec(i)
}

/// What happens to a stream that is blurred in a region: it is split, one copy
/// is cropped to the region and blurred, and laid over the other.
pub open spec fn blur_text(i: nat, blur: BlurRegion) -> Seq<char> {
    "split[main"@ + dec(i) + "][blur"@ + dec(i) + "];[blur"@ + dec(i) + "]crop="@ + dec(
        blur.width as nat,
    ) + ":"@ + dec(blur.height as nat) + ":"@ + dec(blur.x as nat) + ":"@ + dec(blur.y as nat)
        + ",boxblur="@ + dec(BLUR_LUMA_RADIUS as nat) + "[blurred"@ + dec(i) + "];[main"@ + dec(i)
        + "][blurred"@ + dec(i) + "]overlay="@ + dec(blur.x as nat) + ":"@ + dec(blur.y as nat)
}

/// One blur region of a filter graph.
pub open spec fn blur_stage(
    i: nat,
    blur: BlurRegion,
    input: Seq<char>,
    output: Seq<char>,
) -> Seq<char> {
    "["@ + input + "]"@ + blur_text(i, blur) + ("["@ + output + "]"@)
}

fn label(i: usize) -> (r: String)
    ensures
        r@ == chain_label(i as nat),
{
    cat2("cv", decimal(i as u128).as_str())
}

fn blur_of(i: usize, blur: BlurRegion) -> (out: String)
    ensures
        out@ == blur_text(i as nat, blur),
{
    let n = decimal(i as u128);
    let w = decimal(blur.width as u128);
    let h = decimal(blur.height as u128);
    let x = decimal(blur.x as u128);
    let y = decimal(blur.y as u128);
    let r = decimal(BLUR_LUMA_RADIUS as u128);
    let mut out = "split[main".to_owned();
    out.append(n.as_str());
    out.append("][blur");
    out.append(n.as_str());
    out.append("];[blur");
    out.append(n.as_str());
    out.append("]crop=");
    out.append(w.as_str());
    out.append(":");
    out.append(h.as_str());
    out.append(":");
    out.append(x.as_str());
    out.append(":");
    out.append(y.as_str());
    out.append(",boxblur=");
    out.append(r.as_str());
    out.append("[blurred");
    out.append(n.as_str());
    out.append("];[main");
    out.append(n.as_str());
    out.append("][blurred");
    out.append(n.as_str());
    out.append("]overlay=");
    out.append(x.as_str());
    out.append(":");
    out.append(y.as_str());
    out
}

fn blur_filter(i: usize, blur: BlurRegion, input: &str, output: &str) -> (out: String)
    ensures
        out@ == blur_stage(i as nat, blur, input@, output@),
{
    let mut out = cat3("[", input, "]");
    out.append(blur_of(i, blur).as_str());
    out.append(cat3("[", output, "]").as_str());
    out
}

/// The first stage of the graph: both inputs, one after the other.
pub open spec fn concat_stage() -> Seq<char> {
    "[0:v][0:a][1:v][1:a]concat=n=2:v=1:a=1[cv0][araw]"@
}

/// The blur stages of the graph, each working on what the one before gives.
pub open spec fn blur_stages(blurs: Seq<BlurRegion>) -> Seq<Seq<char>> {
    Seq::new(
        blurs.len(),
        |i: int| blur_stage(i as nat, blurs[i], chain_label(i as nat), chain_label((i + 1) as nat)),
    )
}

/// When the sound begins to fade in: so that it is at full volume when the
/// picture starts to appear, or at once.
pub open spec fn audio_fade_start(fade: FadeParams) -> Binary64 {
    at_least_zero(difference(fade.black_hold, fade.fadein))
}

/// When picture and sound begin to fade out.
pub open spec fn fadeout_start(fade: FadeParams) -> Binary64 {
    at_least_zero(difference(fade.total_duration_secs, fade.fadeout))
}

/// A fade filter: which, in or out, from when, for how long.
pub open spec fn fade_text(name: Seq<char>, start: Binary64, length: Binary64) -> Seq<char> {
    name + time_text(start) + ":d="@ + time_text(length)
}

fn fade_filter(name: &str, start: Binary64, length: Binary64) -> (out: String)
    ensures
        out@ == fade_text(name@, start, length),
{
    let mut out = name.to_owned();
    out.append(time(start).as_str());
    out.append(":d=");
    out.append(time(length).as_str());
    out
}

/// The filters of the picture: fade in after the hold, fade out at the end.
pub open spec fn video_filters(fade: FadeParams) -> Seq<Seq<char>> {
    seq![
        fade_text("fade=t=in:st="@, fade.black_hold, fade.fadein),
        fade_text("fade=t=out:st="@, fadeout_start(fade), fade.fadeout),
    ]
}

/// Nothing is heard before the sound begins to fade in.
pub open spec fn silence_text(end: Binary64) -> Seq<char> {
    "volume=enable='between(t,0,"@ + time_text(end) + ")':volume=0"@
}

/// The filters of the sound: silence, where there is time for it, then fade
/// in, and fade out at the end.
pub open spec fn audio_filters(fade: FadeParams) -> Seq<Seq<char>> {
    let fades = seq![
        fade_text("afade=t=in:st="@, audio_fade_start(fade), fade.fadein),
        fade_text("afade=t=out:st="@, fadeout_start(fade), fade.fadeout),
    ];
    if is_positive(audio_fade_start(fade)) {
        seq![silence_text(audio_fade_start(fade))] + fades
    } else {
        fades
    }
}

/// A chain of filters from one stream to another.
pub open spec fn filter_chain(
    input: Seq<char>,
    filters: Seq<Seq<char>>,
    output: Seq<char>,
) -> Seq<char> {
    "["@ + input + "]"@ + joined(filters, ","@) + "["@ + output + "]"@
}

fn chain(input: &str, filters: &Vec<String>, output: &str) -> (out: String)
    ensures
        out@ == filter_chain(input@, texts(filters@), output@),
{
    let mut out = "[".to_owned();
    out.append(input);
    out.append("]");
    out.append(join(filters, ",").as_str());
    out.append("[");
    out.append(output);
    out.append("]");
    out
}

/// How far a line of the title stands below the middle of the picture: the
/// lines are 48 high with 16 between them, and centred together.
pub open spec fn line_offset(i: int, count: int) -> int {
    let height = count * 48 + (count - 1) * 16;
    i * (48 + 16) - height / 2
}

/// How opaque the title is: fully while the picture is black, then fading out
/// while the picture fades in.
pub open spec fn alpha_text(fade: FadeParams) -> Seq<char> {
    if is_positive(fade.black_hold) {
        "if(lt(t\\,"@ + time_text(fade.black_hold) + ")\\,1\\,max(0\\,1-(t-"@ + time_text(
            fade.black_hold,
        ) + ")/"@ + time_text(fade.fadein) + "))"@
    } else {
        "max(0\\,1-t/"@ + time_text(fade.fadein) + ")"@
    }
}

fn alpha(fade: &FadeParams) -> (out: String)
    ensures
        out@ == alpha_text(*fade),
{
    let fadein = time(fade.fadein);
    if fade.black_hold.is_above_zero() {
        let hold = time(fade.black_hold);
        let mut out = "if(lt(t\\,".to_owned();
        out.append(hold.as_str());
        out.append(")\\,1\\,max(0\\,1-(t-");
        out.append(hold.as_str());
        out.append(")/");
        out.append(fadein.as_str());
        out.append("))");
        out
    } else {
        cat3("max(0\\,1-t/", fadein.as_str(), ")")
    }
}

/// What stands for a character in the text of a `drawtext` filter.
pub open spec fn escaped_char(c: char) -> Seq<char> {
    if c == '\\' {
        "\\\\\\\\"@
    } else if c == '\'' {
        "'\\\\\\''"@
    } else if c == ':' {
        "\\:"@
    } else if c == '%' {
        "\\%"@
    } else {
        seq![c]
    }
}

/// A text as a `drawtext` filter takes it.
pub open spec fn escaped(s: Seq<char>) -> Seq<char>
    decreases s.len(),
{
    if s.len() == 0 {
        Seq::empty()
    } else {
        escaped(s.drop_last()) + escaped_char(s.last())
    }
}

/// Escape text for ffmpeg's drawtext filter.
///
/// Characters that have special meaning in ffmpeg filter expressions
/// need to be escaped with a backslash.
pub fn escape_drawtext(text: &str) -> (out: String)
    ensures
        out@ == escaped(text@),
{
    let cs = chars_of(text);
    let mut out = String::new();
    let mut i: usize = 0;
    while i < cs.len()
        invariant
            i <= cs.len(),
            out@ == escaped(cs@.take(i as int)),
        decreases cs.len() - i,
    {
        let c = cs[i];
        proof {
            assert(cs@.take(i as int + 1).drop_last() =~= cs@.take(i as int));
            assert(out@.push(c) =~= out@ + seq![c]);
        }
        if c == '\\' {
            out.append("\\\\\\\\");
        } else if c == '\'' {
            out.append("'\\\\\\''");
        } else if c == ':' {
            out.append("\\:");
        } else if c == '%' {
            out.append("\\%");
        } else {
            out.push(c);
        }
        i += 1;
    }
    proof {
        assert(cs@.take(i as int) =~= cs@);
    }
    out
}

/// One line of the title.
pub open spec fn drawtext_text(line: Seq<char>, i: int, count: int, fade: FadeParams) -> Seq<char> {
    "drawtext=text='"@ + escaped(trimmed(line)) + "':x=(w-tw)/2:y=(h/2)+"@ + dec_signed(
        line_offset(i, count),
    ) + "-(th/2):fontsize=48:fontcolor=white:alpha='"@ + alpha_text(fade) + "'"@
}

fn drawtext(line: &str, i: usize, count: usize, fade: &FadeParams) -> (out: String)
    requires
        i < count,
    ensures
        out@ == drawtext_text(line@, i as int, count as int, *fade),
{
    let n: i128 = count as i128;
    let height: i128 = n * 48 + (n - 1) * 16;
    let below: i128 = i as i128 * 64;
    let offset: i128 = below - height / 2;
    let mut out = "drawtext=text='".to_owned();
    out.append(escape_drawtext(trim(line).as_str()).as_str());
    out.append("':x=(w-tw)/2:y=(h/2)+");
    out.append(decimal_signed(offset).as_str());
    out.append("-(th/2):fontsize=48:fontcolor=white:alpha='");
    out.append(alpha(fade).as_str());
    out.append("'");
    out
}

/// The lines of the title, in order.
pub open spec fn title_filters(title: Seq<char>, fade: FadeParams) -> Seq<Seq<char>> {
    let lines = pieces(title, '/');
    Seq::new(lines.len(), |i: int| drawtext_text(lines[i], i, lines.len() as int, fade))
}

/// The stages of the whole graph.
pub open spec fn graph_stages(blurs: Seq<BlurRegion>, fade: FadeParams) -> Seq<Seq<char>> {
    let faded = match fade.title {
        Some(_) => "vfaded"@,
        None => "v"@,
    };
    let stages = seq![concat_stage()] + blur_stages(blurs) + seq![
        filter_chain(chain_label(blurs.len()), video_filters(fade), faded),
        filter_chain("araw"@, audio_filters(fade), "a"@),
    ];
    match fade.title {
        Some(title) => stages.push(filter_chain("vfaded"@, title_filters(title@, fade), "v"@)),
        None => stages,
    }
}

/// The whole graph as ffmpeg takes it.
pub open spec fn graph_text(blurs: Seq<BlurRegion>, fade: FadeParams) -> Seq<char> {
    joined(graph_stages(blurs, fade), ";"@)
}

fn video_fades(fade: &FadeParams) -> (v: Vec<String>)
    ensures
        texts(v@) == video_filters(*fade),
{
    let mut v: Vec<String> = Vec::new();
    let start = fade.total_duration_secs.minus(fade.fadeout).or_zero();
    v.push(fade_filter("fade=t=in:st=", fade.black_hold, fade.fadein));
    v.push(fade_filter("fade=t=out:st=", start, fade.fadeout));
    assert(texts(v@) =~= video_filters(*fade));
    v
}

fn audio_fades(fade: &FadeParams) -> (v: Vec<String>)
    ensures
        texts(v@) == audio_filters(*fade),
{
    let mut v: Vec<String> = Vec::new();
    let begin = fade.black_hold.minus(fade.fadein).or_zero();
    let end = fade.total_duration_secs.minus(fade.fadeout).or_zero();
    if begin.is_above_zero() {
        v.push(cat3("volume=enable='between(t,0,", time(begin).as_str(), ")':volume=0"));
    }
    v.push(fade_filter("afade=t=in:st=", begin, fade.fadein));
    v.push(fade_filter("afade=t=out:st=", end, fade.fadeout));
    assert(texts(v@) =~= audio_filters(*fade));
    v
}

fn title_lines(title: &str, fade: &FadeParams) -> (v: Vec<String>)
    ensures
        texts(v@) == title_filters(title@, *fade),
{
    let lines = split_on(title, '/');
    let ghost all = title_filters(title@, *fade);
    let mut v: Vec<String> = Vec::new();
    let mut i: usize = 0;
    assert(texts(v@) =~= all.take(0));
    while i < lines.len()
        invariant
            i <= lines.len(),
            texts(lines@) == pieces(title@, '/'),
            all == title_filters(title@, *fade),
            texts(v@) == all.take(i as int),
        decreases lines.len() - i,
    {
        let d = drawtext(lines[i].as_str(), i, lines.len(), fade);
        proof {
            assert(texts(lines@)[i as int] == lines@[i as int]@);
            assert(all.take(i as int + 1) =~= all.take(i as int).push(d@));
            lemma_texts_push(v@, d);
        }
        v.push(d);
        i += 1;
    }
    assert(all.take(i as int) =~= all);
    v
}

/// Build the ffmpeg `-filter_complex` argument for a two-input concat with
/// optional blur regions and always-on fade-in/fade-out effects.
///
/// The pipeline always uses 2 inputs (0=pre, 1=post) and the stages are:
///
/// 1. Concat: `[0:v][0:a][1:v][1:a]concat=n=2:v=1:a=1`
/// 2. Blur regions (split, crop, boxblur, overlay chain)
/// 3. Video fade-in (`fade=t=in:st=hold:d=fadein`, which blacks out before `st`)
///    and fade-out, plus audio silence/fade filters
/// 4. Drawtext title overlay (visible during hold, fades out during fade-in)
pub fn build_filter_complex(blurs: &[BlurRegion], fade: &FadeParams) -> (out: String)
    ensures
        out@ == graph_text(blurs@, *fade),
{
    let mut parts: Vec<String> = Vec::new();
    parts.push("[0:v][0:a][1:v][1:a]concat=n=2:v=1:a=1[cv0][araw]".to_owned());
    let ghost head = seq![concat_stage()] + blur_stages(blurs@);
    assert(texts(parts@) =~= head.take(1));
    let mut i: usize = 0;
    while i < blurs.len()
        invariant
            i <= blurs.len(),
            head == seq![concat_stage()] + blur_stages(blurs@),
            texts(parts@) == head.take(i + 1),
        decreases blurs.len() - i,
    {
        let input = label(i);
        let output = label(i + 1);
        let stage = blur_filter(i, blurs[i], input.as_str(), output.as_str());
        proof {
            assert(stage@ == blur_stages(blurs@)[i as int]);
            assert(head.take(i + 2) =~= head.take(i + 1).push(stage@));
            lemma_texts_push(parts@, stage);
        }
        parts.push(stage);
        i += 1;
    }
    assert(head.take(i + 1) =~= head);
    let current = label(blurs.len());
    let faded = match fade.title {
        Some(_) => "vfaded",
        None => "v",
    };
    let video = chain(current.as_str(), &video_fades(fade), faded);
    let audio = chain("araw", &audio_fades(fade), "a");
    proof {
        lemma_texts_push(parts@, video);
        lemma_texts_push(parts@.push(video), audio);
        assert(head.push(video@).push(audio@) =~= head + seq![video@, audio@]);
    }
    parts.push(video);
    parts.push(audio);
    if let Some(title) = fade.title {
        let drawn = chain("vfaded", &title_lines(title, fade), "v");
        proof {
            lemma_texts_push(parts@, drawn);
        }
        parts.push(drawn);
    }
    assert(texts(parts@) =~= graph_stages(blurs@, *fade));
    join(&parts, ";")
}

// ── Commands ─────────────────────────────────────────────────────────────

/// The arguments that choose an encoder.
pub open spec fn encoder_args<P>(name: Seq<char>, quality: Seq<Seq<char>>) -> Seq<ArgView<P>> {
    words(seq!["-c:v"@, name] + quality)
}

/// The encoder with its quality arguments.
fn push_encoder<'a, P>(cmd: &mut FfmpegCommand<'a, P>, encoder: &EncoderConfig)
    ensures
        final(cmd)@ == (CommandView {
            program: old(cmd)@.program,
            args: old(cmd)@.args + encoder_args(encoder@.name, encoder@.quality_args),
        }),
{
    let ghost before = cmd@.args;
    let ghost all = encoder_args::<P>(encoder@.name, encoder@.quality_args);
    cmd.pair("-c:v", encoder.name.as_str());
    let n = encoder.quality_args.len();
    let mut i: usize = 0;
    assert(cmd@.args =~= before + all.take(2));
    while i < n
        invariant
            i <= n == encoder.quality_args.len(),
            all == encoder_args::<P>(encoder@.name, encoder@.quality_args),
            cmd@.program == old(cmd)@.program,
            cmd@.args == before + all.take(i + 2),
        decreases n - i,
    {
        cmd.text(encoder.quality_args[i].as_str());
        proof {
            assert(encoder@.quality_args[i as int] == encoder.quality_args@[i as int]@);
            assert(cmd@.args =~= before + all.take(i + 3));
        }
        i += 1;
    }
    assert(all.take(i + 2) =~= all);
}

/// Parameters for the concatenation operation.
#[derive(Debug)]
pub struct ConcatParams<'a, P> {
    pub ffmpeg: &'a P,
    pub pre: &'a P,
    pub post: &'a P,
    pub output: &'a P,
    /// Duration of the pre-video up to the detected cut point.
    /// The pre-video is trimmed to this length via `-t`.
    pub cut_point_secs: Binary64,
    pub estimated_total_secs: Binary64,
    pub encoder: &'a EncoderConfig,
    pub blurs: &'a [BlurRegion],
    /// Fade-in duration (always applied).
    pub fadein: Binary64,
    /// Fade-out duration (always applied).
    pub fadeout: Binary64,
    /// Time of black screen before the fade-in begins (zero = none).
    /// The pre-video is not trimmed for it: the filter graph blacks it out.
    pub black_hold: Binary64,
    /// Title text displayed during black-hold + fade-in period. Lines separated by '/'.
    pub title: Option<&'a str>,
    /// Time to seek into the pre-video before reading (zero = no seek).
    pub pre_seek_secs: Binary64,
}

/// Result returned after a successful concat operation.
#[derive(Debug, Clone, Copy, PartialEq, Eq, Structural)]
pub struct ConcatResult {
    /// Wall-clock time taken for the ffmpeg encode.
    pub encode_time: Binary64,
}

impl<'a, P> ConcatParams<'a, P> {
    /// How the picture and the sound are faded.
    pub open spec fn fade(self) -> FadeParams<'a> {
        FadeParams {
            fadein: self.fadein,
            fadeout: self.fadeout,
            black_hold: self.black_hold,
            title: self.title,
            total_duration_secs: self.estimated_total_secs,
        }
    }

    /// How much of the pre-video is read: from the seek to the cut point.
    pub open spec fn pre_duration(self) -> Binary64 {
        difference(self.cut_point_secs, self.pre_seek_secs)
    }

    /// What is encoded, how, and to where.
    pub open spec fn args(self) -> Seq<ArgView<P>> {
        let seek = if is_positive(self.pre_seek_secs) {
            words(seq!["-ss"@, time_text(self.pre_seek_secs)])
        } else {
            Seq::empty()
        };
        words(seq!["-hide_banner"@, "-y"@]) + seek + words(
            seq!["-t"@, time_text(self.pre_duration()), "-i"@],
        ) + seq![ArgView::File(*self.pre), ArgView::Text("-i"@), ArgView::File(*self.post)] + words(
            seq![
                "-filter_complex"@,
                graph_text(self.blurs@, self.fade()),
                "-map"@,
                "[v]"@,
                "-map"@,
                "[a]"@,
            ],
        ) + encoder_args(self.encoder@.name, self.encoder@.quality_args) + words(
            seq!["-c:a"@, "aac"@, "-b:a"@, "192k"@],
        ) + seq![ArgView::File(*self.output)]
    }
}

/// The arguments that have ffmpeg write machine-readable progress to stderr.
pub open spec fn progress_args<P>() -> Seq<ArgView<P>> {
    words(seq!["-progress"@, "pipe:2"@, "-nostats"@])
}

fn push_progress<'a, P>(cmd: &mut FfmpegCommand<'a, P>)
    ensures
        final(cmd)@ == (CommandView {
            program: old(cmd)@.program,
            args: old(cmd)@.args + progress_args(),
        }),
{
    cmd.pair("-progress", "pipe:2");
    cmd.text("-nostats");
    assert(cmd@.args =~= old(cmd)@.args + progress_args());
}

/// Build the ffmpeg command for a two-input concat with always-on
/// fade-in/fade-out and optional title overlay.
///
/// Only two inputs are used: 0=pre (optionally seeked + trimmed to cut
/// point), 1=post (full). When `pre_seek_secs > 0`, the pre-video input
/// is seeked by that amount and `-t` is reduced accordingly so the stream
/// still ends at the original cut point.
///
/// This is the whole command, its progress reports included. The real encode
/// runs it and `--dry-run` prints it, so the printed command always matches
/// what would actually be executed.
pub fn build_ffmpeg_command<'a, P>(params: &ConcatParams<'a, P>) -> (cmd: FfmpegCommand<'a, P>)
    ensures
        cmd@ == (CommandView { program: *params.ffmpeg, args: params.args() + progress_args() }),
        cmd@.args[if is_positive(params.pre_seek_secs) {
            11int
        } else {
            9
        }] == ArgView::<P>::Text(
            graph_text(
                params.blurs@,
                (FadeParams {
                    fadein: params.fadein,
                    fadeout: params.fadeout,
                    black_hold: params.black_hold,
                    title: params.title,
                    total_duration_secs: params.estimated_total_secs,
                }),
            ),
        ),
{
    let fade = FadeParams {
        fadein: params.fadein,
        fadeout: params.fadeout,
        black_hold: params.black_hold,
        title: params.title,
        total_duration_secs: params.estimated_total_secs,
    };
    let filter_complex = build_filter_complex(params.blurs, &fade);
    let mut cmd = FfmpegCommand::new(params.ffmpeg);
    cmd.pair("-hide_banner", "-y");
    if params.pre_seek_secs.is_above_zero() {
        cmd.pair("-ss", time(params.pre_seek_secs).as_str());
    }
    let pre_duration = params.cut_point_secs.minus(params.pre_seek_secs);
    cmd.pair("-t", time(pre_duration).as_str());
    cmd.text("-i");
    cmd.file(params.pre);
    cmd.text("-i");
    cmd.file(params.post);
    cmd.pair("-filter_complex", filter_complex.as_str());
    cmd.pair("-map", "[v]");
    cmd.pair("-map", "[a]");
    push_encoder(&mut cmd, params.encoder);
    cmd.pair("-c:a", "aac");
    cmd.pair("-b:a", "192k");
    cmd.file(params.output);
    assert(cmd@.args =~= params.args());
    push_progress(&mut cmd);
    cmd
}

// ── Blur preview ─────────────────────────────────────────────────────────

/// The label of the stream behind the first `i` of `n` regions of a preview.
pub open spec fn preview_label(i: nat, n: nat) -> Seq<char> {
    if i == 0 {
        "0:v"@
    } else if i == n {
        "v"@
    } else {
        chain_label(i)
    }
}

/// The stages of a preview's graph, each working on what the one before gives.
pub open spec fn preview_stages(blurs: Seq<BlurRegion>) -> Seq<Seq<char>> {
    Seq::new(
        blurs.len(),
        |i: int|
            blur_stage(
                i as nat,
                blurs[i],
                preview_label(i as nat, blurs.len()),
                preview_label((i + 1) as nat, blurs.len()),
            ),
    )
}

/// The graph of a preview as ffmpeg takes it.
pub open spec fn preview_text(blurs: Seq<BlurRegion>) -> Seq<char> {
    joined(preview_stages(blurs), ";"@)
}

/// Build a single-input blur filter graph for preview mode.
///
/// Unlike [`build_filter_complex`] (which starts from a two-input concat),
/// this starts from `[0:v]` directly:
/// ```text
/// [0:v]split[main0][blur0];[blur0]crop=W:H:X:Y,boxblur=10[blurred0];[main0][blurred0]overlay=X:Y[v]
/// ```
pub fn build_blur_preview_filter(blurs: &[BlurRegion]) -> (out: String)
    requires
        blurs@.len() > 0,
    ensures
        out@ == preview_text(blurs@),
{
    let ghost all = preview_stages(blurs@);
    let n = blurs.len();
    let mut parts: Vec<String> = Vec::new();
    let mut i: usize = 0;
    assert(texts(parts@) =~= all.take(0));
    while i < n
        invariant
            i <= n == blurs.len(),
            all == preview_stages(blurs@),
            texts(parts@) == all.take(i as int),
        decreases n - i,
    {
        let input = if i == 0 {
            "0:v".to_owned()
        } else {
            label(i)
        };
        let output = if i == n - 1 {
            "v".to_owned()
        } else {
            label(i + 1)
        };
        let stage = blur_filter(i, blurs[i], input.as_str(), output.as_str());
        proof {
            assert(all[i as int] == stage@);
            assert(all.take(i + 1) =~= all.take(i as int).push(stage@));
            lemma_texts_push(parts@, stage);
        }
        parts.push(stage);
        i += 1;
    }
    assert(all.take(i as int) =~= all);
    join(&parts, ";")
}

/// The arguments that render one frame with blur regions applied.
pub open spec fn preview_args<P>(
    video: P,
    blurs: Seq<BlurRegion>,
    timestamp: Binary64,
    output: P,
) -> Seq<ArgView<P>> {
    words(seq!["-hide_banner"@, "-y"@, "-ss"@, time_text(timestamp), "-i"@]) + seq![
        ArgView::File(video),
    ] + words(
        seq![
            "-filter_complex"@,
            preview_text(blurs),
            "-map"@,
            "[v]"@,
            "-frames:v"@,
            "1"@,
            "-q:v"@,
            "2"@,
        ],
    ) + seq![ArgView::File(output)]
}

/// Build the command that seeks to `timestamp_secs` in the video, applies the
/// blur filter graph, and writes one JPEG frame to `output`.
pub fn build_blur_preview_command<'a, P>(
    ffmpeg: &'a P,
    video: &'a P,
    blurs: &[BlurRegion],
    timestamp_secs: Binary64,
    output: &'a P,
) -> (cmd: FfmpegCommand<'a, P>)
    requires
        blurs@.len() > 0,
    ensures
        cmd@ == (CommandView {
            program: *ffmpeg,
            args: preview_args(*video, blurs@, timestamp_secs, *output),
        }),
{
    let filter = build_blur_preview_filter(blurs);
    let mut cmd = FfmpegCommand::new(ffmpeg);
    cmd.pair("-hide_banner", "-y");
    cmd.pair("-ss", time(timestamp_secs).as_str());
    cmd.text("-i");
    cmd.file(video);
    cmd.pair("-filter_complex", filter.as_str());
    cmd.pair("-map", "[v]");
    cmd.pair("-frames:v", "1");
    cmd.pair("-q:v", "2");
    cmd.file(output);
    assert(cmd@.args =~= preview_args(*video, blurs@, timestamp_secs, *output));
    cmd
}

/// What a finished preview run means.
pub fn preview_outcome(success: bool, stderr: String) -> (r: Result<(), LimitcutError>)
    ensures
        match r {
            Ok(_) => success,
            Err(LimitcutError::ConcatFailed { stderr: text }) => !success && text == stderr,
            Err(_) => false,
        },
{
    if success {
        Ok(())
    } else {
        Err(LimitcutError::ConcatFailed { stderr })
    }
}

// ── Single input ─────────────────────────────────────────────────────────

/// Parameters for a re-encode of one video.
#[derive(Debug)]
pub struct SingleInputParams<'a, P> {
    pub ffmpeg: &'a P,
    pub input: &'a P,
    pub output: &'a P,
    pub estimated_total_secs: Binary64,
    pub encoder: &'a EncoderConfig,
    pub blurs: &'a [BlurRegion],
    /// Fade-in duration (zero = none).
    pub fadein: Binary64,
    /// Fade-out duration (zero = none).
    pub fadeout: Binary64,
    /// Time of black screen before the fade-in begins (zero = none).
    pub black_hold: Binary64,
    /// Title text displayed during black-hold + fade-in period. Lines separated by '/'.
    pub title: Option<&'a str>,
    /// Time to seek into the video before reading (zero = no seek).
    pub input_seek_secs: Binary64,
    /// Height to scale the picture to, if any; its width follows.
    pub output_height: Option<u32>,
}

/// The label of the stream behind the first `i` blur regions of one video.
pub open spec fn single_label(i: nat) -> Seq<char> {
    if i == 0 {
        "0:v"@
    } else {
        chain_label(i)
    }
}

/// Whether the picture and the sound of one video are faded in.
pub open spec fn fades_in(fade: FadeParams) -> bool {
    is_positive(fade.black_hold) || is_positive(fade.fadein)
}

/// A filter, if it is wanted.
pub open spec fn if_wanted(wanted: bool, filter: Seq<char>) -> Seq<Seq<char>> {
    if wanted {
        seq![filter]
    } else {
        Seq::empty()
    }
}

/// The filters of the title, if there is one.
pub open spec fn maybe_title(fade: FadeParams) -> Seq<Seq<char>> {
    match fade.title {
        Some(title) => title_filters(title@, fade),
        None => Seq::empty(),
    }
}

/// The filter that scales the picture, if it is to be scaled.
pub open spec fn maybe_scale(height: Option<u32>) -> Seq<Seq<char>> {
    match height {
        Some(h) => seq!["scale=-2:"@ + dec(h as nat)],
        None => Seq::empty(),
    }
}

/// The filters of the picture of one video, behind its blur regions.
pub open spec fn single_video_filters(fade: FadeParams, height: Option<u32>) -> Seq<Seq<char>> {
    let all = if_wanted(
        fades_in(fade),
        fade_text("fade=t=in:st="@, fade.black_hold, fade.fadein),
    ) + if_wanted(
        is_positive(fade.fadeout),
        fade_text("fade=t=out:st="@, fadeout_start(fade), fade.fadeout),
    ) + maybe_title(fade) + maybe_scale(height);
    if all.len() == 0 {
        seq!["null"@]
    } else {
        all
    }
}

/// The filters of the sound of one video.
pub open spec fn single_audio_filters(fade: FadeParams) -> Seq<Seq<char>> {
    if_wanted(is_positive(audio_fade_start(fade)), silence_text(audio_fade_start(fade))) + if_wanted(
        fades_in(fade),
        fade_text("afade=t=in:st="@, audio_fade_start(fade), fade.fadein),
    ) + if_wanted(
        is_positive(fade.fadeout),
        fade_text("afade=t=out:st="@, fadeout_start(fade), fade.fadeout),
    )
}

/// The stages of the graph for one video: its blur regions, the picture, and
/// the sound where anything is done to it.
pub open spec fn single_stages(
    blurs: Seq<BlurRegion>,
    fade: FadeParams,
    height: Option<u32>,
) -> Seq<Seq<char>> {
    let picture = Seq::new(
        blurs.len(),
        |i: int|
            blur_stage(i as nat, blurs[i], single_label(i as nat), single_label((i + 1) as nat)),
    ).push(filter_chain(single_label(blurs.len()), single_video_filters(fade, height), "v"@));
    if single_audio_filters(fade).len() > 0 {
        picture.push(filter_chain("0:a"@, single_audio_filters(fade), "a"@))
    } else {
        picture
    }
}

fn push_all(v: &mut Vec<String>, more: Vec<String>)
    ensures
        texts(final(v)@) == texts(old(v)@) + texts(more@),
{
    let ghost before = texts(v@);
    let mut i: usize = 0;
    assert(before + texts(more@).take(0) =~= before);
    while i < more.len()
        invariant
            i <= more.len(),
            texts(v@) == before + texts(more@).take(i as int),
        decreases more.len() - i,
    {
        let s = more[i].as_str().to_owned();
        proof {
            lemma_texts_push(v@, s);
            assert(texts(more@)[i as int] == s@);
            assert(before + texts(more@).take(i + 1) =~= (before + texts(more@).take(
                i as int,
            )).push(s@));
        }
        v.push(s);
        i += 1;
    }
    assert(texts(more@).take(i as int) =~= texts(more@));
}

fn single_video(fade: &FadeParams, height: Option<u32>) -> (v: Vec<String>)
    ensures
        texts(v@) == single_video_filters(*fade, height),
{
    let mut v: Vec<String> = Vec::new();
    if fade.black_hold.is_above_zero() || fade.fadein.is_above_zero() {
        v.push(fade_filter("fade=t=in:st=", fade.black_hold, fade.fadein));
    }
    if fade.fadeout.is_above_zero() {
        let start = fade.total_duration_secs.minus(fade.fadeout).or_zero();
        v.push(fade_filter("fade=t=out:st=", start, fade.fadeout));
    }
    let ghost fades = if_wanted(
        fades_in(*fade),
        fade_text("fade=t=in:st="@, fade.black_hold, fade.fadein),
    ) + if_wanted(
        is_positive(fade.fadeout),
        fade_text("fade=t=out:st="@, fadeout_start(*fade), fade.fadeout),
    );
    assert(texts(v@) =~= fades);
    if let Some(title) = fade.title {
        push_all(&mut v, title_lines(title, fade));
    }
    assert(texts(v@) =~= fades + maybe_title(*fade));
    if let Some(h) = height {
        let scale = cat2("scale=-2:", decimal(h as u128).as_str());
        proof {
            lemma_texts_push(v@, scale);
        }
        v.push(scale);
    }
    assert(texts(v@) =~= fades + maybe_title(*fade) + maybe_scale(height));
    if v.len() == 0 {
        v.push("null".to_owned());
        assert(texts(v@) =~= seq!["null"@]);
    }
    v
}

fn single_audio(fade: &FadeParams) -> (v: Vec<String>)
    ensures
        texts(v@) == single_audio_filters(*fade),
{
    let mut v: Vec<String> = Vec::new();
    let begin = fade.black_hold.minus(fade.fadein).or_zero();
    if begin.is_above_zero() {
        v.push(cat3("volume=enable='between(t,0,", time(begin).as_str(), ")':volume=0"));
    }
    if fade.black_hold.is_above_zero() || fade.fadein.is_above_zero() {
        v.push(fade_filter("afade=t=in:st=", begin, fade.fadein));
    }
    if fade.fadeout.is_above_zero() {
        let start = fade.total_duration_secs.minus(fade.fadeout).or_zero();
        v.push(fade_filter("afade=t=out:st=", start, fade.fadeout));
    }
    assert(texts(v@) =~= single_audio_filters(*fade));
    v
}

/// Build the filter graph for one video: the blur regions, then what else is
/// done to its picture and its sound.
pub fn build_single_input_filter(
    blurs: &[BlurRegion],
    fade: &FadeParams,
    height: Option<u32>,
) -> (out: String)
    ensures
        out@ == joined(single_stages(blurs@, *fade, height), ";"@),
{
    let ghost all = single_stages(blurs@, *fade, height);
    let mut parts: Vec<String> = Vec::new();
    let mut input = "0:v".to_owned();
    let mut i: usize = 0;
    assert(texts(parts@) =~= all.take(0));
    while i < blurs.len()
        invariant
            i <= blurs.len(),
            all == single_stages(blurs@, *fade, height),
            input@ == single_label(i as nat),
            texts(parts@) == all.take(i as int),
        decreases blurs.len() - i,
    {
        let output = label(i + 1);
        let stage = blur_filter(i, blurs[i], input.as_str(), output.as_str());
        proof {
            assert(all[i as int] == stage@);
            assert(all.take(i + 1) =~= all.take(i as int).push(stage@));
            lemma_texts_push(parts@, stage);
        }
        parts.push(stage);
        input = output;
        i += 1;
    }
    let picture = chain(input.as_str(), &single_video(fade, height), "v");
    proof {
        lemma_texts_push(parts@, picture);
        assert(all.take(i + 1) =~= all.take(i as int).push(picture@));
    }
    parts.push(picture);
    let audio = single_audio(fade);
    assert(audio@.len() == texts(audio@).len());
    if audio.len() > 0 {
        let sound = chain("0:a", &audio, "a");
        proof {
            lemma_texts_push(parts@, sound);
        }
        parts.push(sound);
    }
    assert(texts(parts@) =~= all);
    join(&parts, ";")
}

impl<'a, P> SingleInputParams<'a, P> {
    /// How the picture and the sound are faded.
    pub open spec fn fade(self) -> FadeParams<'a> {
        FadeParams {
            fadein: self.fadein,
            fadeout: self.fadeout,
            black_hold: self.black_hold,
            title: self.title,
            total_duration_secs: self.estimated_total_secs,
        }
    }

    /// What is encoded, how, and to where. Where nothing is done to the sound
    /// it is taken as it is, if there is any.
    pub open spec fn args(self) -> Seq<ArgView<P>> {
        let seek = if is_positive(self.input_seek_secs) {
            words(seq!["-ss"@, time_text(self.input_seek_secs)])
        } else {
            Seq::empty()
        };
        let sound = if single_audio_filters(self.fade()).len() > 0 {
            "[a]"@
        } else {
            "0:a?"@
        };
        words(seq!["-hide_banner"@, "-y"@]) + seek + seq![
            ArgView::Text("-i"@),
            ArgView::File(*self.input),
        ] + words(
            seq![
                "-filter_complex"@,
                joined(single_stages(self.blurs@, self.fade(), self.output_height), ";"@),
                "-map"@,
                "[v]"@,
                "-map"@,
                sound,
            ],
        ) + encoder_args(self.encoder@.name, self.encoder@.quality_args) + words(
            seq!["-c:a"@, "aac"@, "-b:a"@, "192k"@],
        ) + seq![ArgView::File(*self.output)]
    }
}

/// Build the ffmpeg command that re-encodes one video, its progress reports
/// included. The real encode runs it and `--dry-run` prints it.
pub fn build_single_input_ffmpeg_command<'a, P>(params: &SingleInputParams<'a, P>) -> (cmd:
    FfmpegCommand<'a, P>)
    ensures
        cmd@ == (CommandView { program: *params.ffmpeg, args: params.args() + progress_args() }),
        cmd@.args[if is_positive(params.input_seek_secs) {
            7int
        } else {
            5
        }] == ArgView::<P>::Text(
            joined(
                single_stages(
                    params.blurs@,
                    (FadeParams {
                        fadein: params.fadein,
                        fadeout: params.fadeout,
                        black_hold: params.black_hold,
                        title: params.title,
                        total_duration_secs: params.estimated_total_secs,
                    }),
                    params.output_height,
                ),
                ";"@,
            ),
        ),
{
    let fade = FadeParams {
        fadein: params.fadein,
        fadeout: params.fadeout,
        black_hold: params.black_hold,
        title: params.title,
        total_duration_secs: params.estimated_total_secs,
    };
    let filter = build_single_input_filter(params.blurs, &fade, params.output_height);
    let audio = single_audio(&fade);
    assert(audio@.len() == texts(audio@).len());
    let sound = if audio.len() > 0 {
        "[a]"
    } else {
        "0:a?"
    };
    let mut cmd = FfmpegCommand::new(params.ffmpeg);
    cmd.pair("-hide_banner", "-y");
    if params.input_seek_secs.is_above_zero() {
        cmd.pair("-ss", time(params.input_seek_secs).as_str());
    }
    cmd.text("-i");
    cmd.file(params.input);
    cmd.pair("-filter_complex", filter.as_str());
    cmd.pair("-map", "[v]");
    cmd.pair("-map", sound);
    push_encoder(&mut cmd, params.encoder);
    cmd.pair("-c:a", "aac");
    cmd.pair("-b:a", "192k");
    cmd.file(params.output);
    assert(cmd@.args =~= params.args());
    push_progress(&mut cmd);
    cmd
}

// ── Progress ─────────────────────────────────────────────────────────────

/// The number behind `out_time_ms=`, in a line that holds that and nothing else.
pub open spec fn out_time(line: Seq<char>) -> Option<nat> {
    let t = trimmed(line);
    if "out_time_ms="@.is_prefix_of(t) {
        read_number(t.skip("out_time_ms="@.len() as int), u64::MAX as nat)
    } else {
        None
    }
}

/// Parse the elapsed output time out of an ffmpeg progress line.
///
/// ffmpeg writes progress to stderr as key=value pairs, e.g.:
/// ```text
/// out_time_ms=10000000
/// progress=continue
/// ```
/// In spite of its name, `out_time_ms` counts microseconds.
pub fn parse_out_time_ms(line: &str) -> (r: Option<u64>)
    ensures
        match r {
            Some(n) => out_time(line@) == Some(n as nat),
            None => out_time(line@) is None,
        },
{
    let t = trim(line);
    if !starts_with(t.as_str(), "out_time_ms=") {
        return None;
    }
    let cs = chars_of(t.as_str());
    let from = chars_of("out_time_ms=").len();
    let rest = text_from(&cs, from, cs.len());
    assert(rest@ =~= t@.skip(from as int));
    parse_u64(rest.as_str())
}

/// How much of the output is done in percent, as the numbers give it.
pub open spec fn share(out_us: nat, total: Binary64) -> Binary64 {
    hundredfold(quotient(quotient(whole(out_us), whole(1_000_000)), total))
}

/// How much of the output is done, in whole percent, at most 100.
pub open spec fn percent(out_us: nat, total: Binary64) -> nat {
    if less(share(out_us, total), whole(100)) {
        share(out_us, total).size() / one()
    } else {
        100
    }
}

/// The percentage to show after a line of ffmpeg's progress output, if the
/// line says how far the output is and the total duration is known.
pub fn progress_percent(line: &str, total_duration_secs: Binary64) -> (r: Option<u64>)
    ensures
        match r {
            Some(p) => out_time(line@) is Some && is_positive(total_duration_secs) && p == percent(
                out_time(line@)->0,
                total_duration_secs,
            ),
            None => out_time(line@) is None || !is_positive(total_duration_secs),
        },
{
    let out_us = match parse_out_time_ms(line) {
        Some(out_us) => out_us,
        None => {
            return None;
        },
    };
    if !total_duration_secs.is_above_zero() {
        return None;
    }
    let elapsed = Binary64::whole(out_us).divide(Binary64::whole(1_000_000));
    let done = elapsed.divide(total_duration_secs).hundredfold();
    let all = Binary64::whole(100);
    if done.is_less(all) {
        proof {
            lemma_share_is_not_negative(out_us as nat, total_duration_secs);
            law_below_whole(done, 100);
        }
        Some(done.truncated())
    } else {
        Some(100)
    }
}

/// Whether a line is one of ffmpeg's progress reports.
pub open spec fn is_progress(line: Seq<char>) -> bool {
    ||| "frame="@.is_prefix_of(line)
    ||| "fps="@.is_prefix_of(line)
    ||| "out_time"@.is_prefix_of(line)
    ||| "progress="@.is_prefix_of(line)
    ||| "speed="@.is_prefix_of(line)
    ||| "bitrate="@.is_prefix_of(line)
    ||| "total_size="@.is_prefix_of(line)
    ||| "dup_frames="@.is_prefix_of(line)
    ||| "drop_frames="@.is_prefix_of(line)
}

fn is_progress_line(line: &str) -> (r: bool)
    ensures
        r == is_progress(line@),
{
    starts_with(line, "frame=") || starts_with(line, "fps=") || starts_with(line, "out_time")
        || starts_with(line, "progress=") || starts_with(line, "speed=") || starts_with(
        line,
        "bitrate=",
    ) || starts_with(line, "total_size=") || starts_with(line, "dup_frames=") || starts_with(
        line,
        "drop_frames=",
    )
}

/// The lines that are no progress reports, in order.
pub open spec fn error_lines(lines: Seq<Seq<char>>) -> Seq<Seq<char>> {
    lines.filter(|l: Seq<char>| !is_progress(l))
}

/// What a finished encode means: success, or a failure that is told by what
/// ffmpeg wrote to stderr, without its progress reports.
pub fn encode_outcome(success: bool, stderr_lines: &Vec<String>) -> (r: Result<(), LimitcutError>)
    ensures
        match r {
            Ok(_) => success,
            Err(LimitcutError::ConcatFailed { stderr }) => !success && stderr@ == joined(
                error_lines(texts(stderr_lines@)),
                "\n"@,
            ),
            Err(_) => false,
        },
{
    if success {
        return Ok(());
    }
    let ghost all = texts(stderr_lines@);
    let ghost keep = |l: Seq<char>| !is_progress(l);
    let mut kept: Vec<String> = Vec::new();
    let mut i: usize = 0;
    proof {
        reveal(Seq::filter);
        assert(all.take(0) =~= Seq::empty());
        assert(texts(kept@) =~= all.take(0).filter(keep));
    }
    while i < stderr_lines.len()
        invariant
            i <= stderr_lines.len(),
            all == texts(stderr_lines@),
            keep == (|l: Seq<char>| !is_progress(l)),
            texts(kept@) == all.take(i as int).filter(keep),
        decreases stderr_lines.len() - i,
    {
        let line = &stderr_lines[i];
        proof {
            reveal(Seq::filter);
            let now = all.take(i + 1);
            assert(now.drop_last() =~= all.take(i as int));
            assert(now.last() == line@);
        }
        if !is_progress_line(line.as_str()) {
            let copy = line.as_str().to_owned();
            proof {
                lemma_texts_push(kept@, copy);
            }
            kept.push(copy);
        }
        i += 1;
    }
    assert(all.take(i as int) =~= all);
    Err(LimitcutError::ConcatFailed { stderr: join(&kept, "\n") })
}

// ── Dry run ──────────────────────────────────────────────────────────────

/// The ffmpeg command as a shell-pasteable line (for --dry-run): a shell that
/// reads it gets the program and its arguments.
pub fn print_command(program: &str, args: &Vec<String>) -> (out: String)
    ensures
        out@ == printed(program@, texts(args@)),
        shell_words(out@) == Some(seq![program@] + texts(args@)),
{
    proof {
        law_printed_command_reads_back(program@, texts(args@));
    }
    command_line(program, args)
}

// ── Laws ─────────────────────────────────────────────────────────────────

/// Whether a stage begins with the label of the stream that it takes.
pub open spec fn takes(stage: Seq<char>, label: Seq<char>) -> bool {
    ("["@ + label + "]"@).is_prefix_of(stage)
}

/// Whether a stage ends with the label of the stream that it gives.
pub open spec fn gives(stage: Seq<char>, label: Seq<char>) -> bool {
    ("["@ + label + "]"@).is_suffix_of(stage)
}

proof fn lemma_begins(front: Seq<char>, back: Seq<char>)
    ensures
        front.is_prefix_of(front + back),
        back.is_suffix_of(front + back),
{
    let whole = front + back;
    assert(whole.subrange(0, front.len() as int) =~= front);
    assert(whole.subrange(whole.len() - back.len(), whole.len() as int) =~= back);
}

proof fn lemma_blur_stage(i: nat, blur: BlurRegion, input: Seq<char>, output: Seq<char>)
    ensures
        takes(blur_stage(i, blur, input, output), input),
        gives(blur_stage(i, blur, input, output), output),
{
    let head = "["@ + input + "]"@;
    let body = blur_text(i, blur);
    let tail = "["@ + output + "]"@;
    assert(head + body + tail =~= head + (body + tail));
    lemma_begins(head, body + tail);
    lemma_begins(head + body, tail);
}

proof fn lemma_filter_chain(input: Seq<char>, filters: Seq<Seq<char>>, output: Seq<char>)
    ensures
        takes(filter_chain(input, filters, output), input),
        gives(filter_chain(input, filters, output), output),
{
    let chain = filter_chain(input, filters, output);
    let body = joined(filters, ","@);
    let tail = "["@ + output + "]"@;
    assert(chain =~= ("["@ + input + "]"@) + (body + tail));
    assert(chain =~= ("["@ + input + "]"@ + body) + tail);
    lemma_begins("["@ + input + "]"@, body + tail);
    lemma_begins("["@ + input + "]"@ + body, tail);
}

proof fn lemma_gives_occurs(stage: Seq<char>, label: Seq<char>)
    requires
        gives(stage, label),
    ensures
        occurs(stage, "["@ + label + "]"@),
{
    let tail = "["@ + label + "]"@;
    let at = stage.len() - tail.len();
    assert(stage.subrange(at, at + tail.len()) =~= stage.subrange(at, stage.len() as int));
    assert(occurs_at(stage, tail, at));
}

/// Each blur stage of the graph takes the stream that the stage before it
/// gives, from that of the concat on, and the fades take what the last gives.
pub proof fn law_graph_is_a_chain(blurs: Seq<BlurRegion>, fade: FadeParams)
    ensures
        forall|i: int|
            0 <= i < blurs.len() ==> takes(
                #[trigger] graph_stages(blurs, fade)[i + 1],
                chain_label(i as nat),
            ) && gives(graph_stages(blurs, fade)[i + 1], chain_label((i + 1) as nat)),
        takes(graph_stages(blurs, fade)[blurs.len() as int + 1], chain_label(blurs.len())),
{
    let stages = graph_stages(blurs, fade);
    assert forall|i: int| 0 <= i < blurs.len() implies takes(
        #[trigger] stages[i + 1],
        chain_label(i as nat),
    ) && gives(stages[i + 1], chain_label((i + 1) as nat)) by {
        lemma_blur_stage(i as nat, blurs[i], chain_label(i as nat), chain_label((i + 1) as nat));
        assert(stages[i + 1] == blur_stages(blurs)[i]);
    }
    lemma_filter_chain(chain_label(blurs.len()), video_filters(fade), "v"@);
    lemma_filter_chain(chain_label(blurs.len()), video_filters(fade), "vfaded"@);
}

/// The graph gives the two streams that the command maps to the output.
pub proof fn law_graph_gives_picture_and_sound(blurs: Seq<BlurRegion>, fade: FadeParams)
    ensures
        occurs(graph_text(blurs, fade), "[v]"@),
        occurs(graph_text(blurs, fade), "[a]"@),
{
    reveal_strlit("[");
    reveal_strlit("]");
    reveal_strlit("v");
    reveal_strlit("a");
    reveal_strlit("[v]");
    reveal_strlit("[a]");
    assert("["@ + "v"@ + "]"@ =~= "[v]"@);
    assert("["@ + "a"@ + "]"@ =~= "[a]"@);
    let stages = graph_stages(blurs, fade);
    let n = blurs.len() as int;
    lemma_filter_chain("araw"@, audio_filters(fade), "a"@);
    assert(stages[n + 2] == filter_chain("araw"@, audio_filters(fade), "a"@));
    lemma_gives_occurs(stages[n + 2], "a"@);
    lemma_occurs_in_join(stages, ";"@, n + 2, "[a]"@);
    match fade.title {
        Some(title) => {
            lemma_filter_chain("vfaded"@, title_filters(title@, fade), "v"@);
            lemma_gives_occurs(stages[n + 3], "v"@);
            lemma_occurs_in_join(stages, ";"@, n + 3, "[v]"@);
        },
        None => {
            lemma_filter_chain(chain_label(blurs.len()), video_filters(fade), "v"@);
            lemma_gives_occurs(stages[n + 1], "v"@);
            lemma_occurs_in_join(stages, ";"@, n + 1, "[v]"@);
        },
    }
}

/// Whether the label of the picture cannot stand in a text, nor begin in it:
/// no bracket has a `v` behind it, and the last character is no bracket.
spec fn is_calm(s: Seq<char>) -> bool {
    &&& forall|i: int| 0 <= i < s.len() - 1 ==> !(#[trigger] s[i] == '[' && s[i + 1] == 'v')
    &&& s.len() > 0 ==> s.last() != '['
}

/// Whether there is no bracket in a text.
spec fn is_smooth(s: Seq<char>) -> bool {
    forall|i: int| 0 <= i < s.len() ==> #[trigger] s[i] != '['
}

proof fn lemma_smooth_is_calm(s: Seq<char>)
    requires
        is_smooth(s),
    ensures
        is_calm(s),
{
    if s.len() > 0 {
        assert(s.last() == s[s.len() - 1]);
    }
}

proof fn lemma_smooth_sum(a: Seq<char>, b: Seq<char>)
    requires
        is_smooth(a),
        is_smooth(b),
    ensures
        is_smooth(a + b),
{
    assert forall|i: int| 0 <= i < (a + b).len() implies #[trigger] (a + b)[i] != '[' by {
        if i < a.len() {
            assert((a + b)[i] == a[i]);
        } else {
            assert((a + b)[i] == b[i - a.len()]);
        }
    }
}

proof fn lemma_calm_sum(a: Seq<char>, b: Seq<char>)
    requires
        is_calm(a),
        is_calm(b),
    ensures
        is_calm(a + b),
{
    let s = a + b;
    assert forall|i: int| 0 <= i < s.len() - 1 implies !(#[trigger] s[i] == '[' && s[i + 1]
        == 'v') by {
        if i + 1 < a.len() {
            assert(s[i] == a[i] && s[i + 1] == a[i + 1]);
        } else if i < a.len() {
            assert(s[i] == a.last());
        } else {
            assert(s[i] == b[i - a.len()] && s[i + 1] == b[i - a.len() + 1]);
        }
    }
    if b.len() > 0 {
        assert(s.last() == b.last());
    } else {
        assert(s =~= a);
    }
}

proof fn lemma_calm_join(parts: Seq<Seq<char>>, sep: Seq<char>)
    requires
        is_calm(sep),
        forall|i: int| 0 <= i < parts.len() ==> is_calm(#[trigger] parts[i]),
    ensures
        is_calm(joined(parts, sep)),
    decreases parts.len(),
{
    if parts.len() > 1 {
        let before = parts.drop_last();
        assert forall|i: int| 0 <= i < before.len() implies is_calm(#[trigger] before[i]) by {
            assert(before[i] == parts[i]);
        }
        lemma_calm_join(before, sep);
        assert(is_calm(parts[parts.len() - 1]));
        lemma_calm_sum(joined(before, sep), sep);
        lemma_calm_sum(joined(before, sep) + sep, parts.last());
    }
}

proof fn lemma_number_is_smooth(n: nat)
    ensures
        is_smooth(dec(n)),
        is_calm(dec(n)),
{
    lemma_dec(n);
    assert forall|i: int| 0 <= i < dec(n).len() implies #[trigger] dec(n)[i] != '[' by {
        assert(is_digit(dec(n)[i]));
    }
    lemma_smooth_is_calm(dec(n));
}

proof fn lemma_padded_is_smooth(n: nat, width: nat)
    ensures
        is_smooth(zero_padded(n, width)),
    decreases width,
{
    if width > 0 {
        let before = zero_padded(n / 10, (width - 1) as nat);
        lemma_padded_is_smooth(n / 10, (width - 1) as nat);
        let now = zero_padded(n, width);
        assert forall|i: int| 0 <= i < now.len() implies #[trigger] now[i] != '[' by {
            if i < before.len() {
                assert(now[i] == before[i]);
            }
        }
    }
}

proof fn lemma_time_is_calm(t: Binary64)
    ensures
        is_calm(time_text(t)),
{
    reveal_strlit("-");
    reveal_strlit("");
    reveal_strlit(".");
    reveal_strlit("NaN");
    reveal_strlit("inf");
    let sign = sign_text(t.is_negative());
    if t.is_nan() {
        lemma_smooth_is_calm("NaN"@);
    } else if t.is_infinite() {
        lemma_smooth_sum(sign, "inf"@);
        lemma_smooth_is_calm(time_text(t));
    } else {
        let q = nearest(t.size() * ten_to(6), one());
        let front = dec(q / ten_to(6));
        let part = zero_padded(q % ten_to(6), 6);
        lemma_number_is_smooth(q / ten_to(6));
        lemma_padded_is_smooth(q % ten_to(6), 6);
        lemma_smooth_sum(sign, front);
        lemma_smooth_sum(sign + front, "."@);
        lemma_smooth_sum(sign + front + "."@, part);
        lemma_smooth_is_calm(time_text(t));
    }
}

proof fn lemma_fade_is_calm(name: Seq<char>, start: Binary64, length: Binary64)
    requires
        is_calm(name),
    ensures
        is_calm(fade_text(name, start, length)),
{
    reveal_strlit(":d=");
    lemma_smooth_is_calm(":d="@);
    lemma_time_is_calm(start);
    lemma_time_is_calm(length);
    lemma_calm_sum(name, time_text(start));
    lemma_calm_sum(name + time_text(start), ":d="@);
    lemma_calm_sum(name + time_text(start) + ":d="@, time_text(length));
}

proof fn lemma_label_is_calm(label: Seq<char>)
    requires
        is_calm(label),
        label.len() > 0,
        label[0] != 'v',
    ensures
        is_calm("["@ + label + "]"@),
{
    reveal_strlit("[");
    reveal_strlit("]");
    let s = "["@ + label;
    assert forall|i: int| 0 <= i < s.len() - 1 implies !(#[trigger] s[i] == '[' && s[i + 1]
        == 'v') by {
        if i > 0 {
            assert(s[i] == label[i - 1] && s[i + 1] == label[i]);
        }
    }
    assert(s.last() == label.last());
    lemma_smooth_is_calm("]"@);
    lemma_calm_sum(s, "]"@);
}

proof fn lemma_chain_label_is_calm(i: nat)
    ensures
        is_calm("["@ + chain_label(i) + "]"@),
{
    reveal_strlit("cv");
    lemma_number_is_smooth(i);
    lemma_smooth_is_calm("cv"@);
    lemma_calm_sum("cv"@, dec(i));
    lemma_label_is_calm(chain_label(i));
}

proof fn lemma_blur_is_calm(i: nat, blur: BlurRegion)
    ensures
        is_calm(blur_text(i, blur)),
{
    reveal_strlit("split[main");
    reveal_strlit("][blur");
    reveal_strlit("];[blur");
    reveal_strlit("]crop=");
    reveal_strlit(":");
    reveal_strlit(",boxblur=");
    reveal_strlit("[blurred");
    reveal_strlit("];[main");
    reveal_strlit("][blurred");
    reveal_strlit("]overlay=");
    lemma_number_is_smooth(i);
    lemma_number_is_smooth(blur.width as nat);
    lemma_number_is_smooth(blur.height as nat);
    lemma_number_is_smooth(blur.x as nat);
    lemma_number_is_smooth(blur.y as nat);
    lemma_number_is_smooth(BLUR_LUMA_RADIUS as nat);
    let t1 = "split[main"@ + dec(i);
    lemma_calm_sum("split[main"@, dec(i));
    let t2 = t1 + "][blur"@;
    lemma_calm_sum(t1, "][blur"@);
    let t3 = t2 + dec(i);
    lemma_calm_sum(t2, dec(i));
    let t4 = t3 + "];[blur"@;
    lemma_calm_sum(t3, "];[blur"@);
    let t5 = t4 + dec(i);
    lemma_calm_sum(t4, dec(i));
    let t6 = t5 + "]crop="@;
    lemma_calm_sum(t5, "]crop="@);
    let t7 = t6 + dec(blur.width as nat);
    lemma_calm_sum(t6, dec(blur.width as nat));
    let t8 = t7 + ":"@;
    lemma_calm_sum(t7, ":"@);
    let t9 = t8 + dec(blur.height as nat);
    lemma_calm_sum(t8, dec(blur.height as nat));
    let t10 = t9 + ":"@;
    lemma_calm_sum(t9, ":"@);
    let t11 = t10 + dec(blur.x as nat);
    lemma_calm_sum(t10, dec(blur.x as nat));
    let t12 = t11 + ":"@;
    lemma_calm_sum(t11, ":"@);
    let t13 = t12 + dec(blur.y as nat);
    lemma_calm_sum(t12, dec(blur.y as nat));
    let t14 = t13 + ",boxblur="@;
    lemma_calm_sum(t13, ",boxblur="@);
    let t15 = t14 + dec(BLUR_LUMA_RADIUS as nat);
    lemma_calm_sum(t14, dec(BLUR_LUMA_RADIUS as nat));
    let t16 = t15 + "[blurred"@;
    lemma_calm_sum(t15, "[blurred"@);
    let t17 = t16 + dec(i);
    lemma_calm_sum(t16, dec(i));
    let t18 = t17 + "];[main"@;
    lemma_calm_sum(t17, "];[main"@);
    let t19 = t18 + dec(i);
    lemma_calm_sum(t18, dec(i));
    let t20 = t19 + "][blurred"@;
    lemma_calm_sum(t19, "][blurred"@);
    let t21 = t20 + dec(i);
    lemma_calm_sum(t20, dec(i));
    let t22 = t21 + "]overlay="@;
    lemma_calm_sum(t21, "]overlay="@);
    let t23 = t22 + dec(blur.x as nat);
    lemma_calm_sum(t22, dec(blur.x as nat));
    let t24 = t23 + ":"@;
    lemma_calm_sum(t23, ":"@);
    lemma_calm_sum(t24, dec(blur.y as nat));
}

/// What stands before the stage that fades the picture.
spec fn graph_head(blurs: Seq<BlurRegion>) -> Seq<Seq<char>> {
    seq![concat_stage()] + blur_stages(blurs)
}

proof fn lemma_head_is_calm(blurs: Seq<BlurRegion>)
    ensures
        is_calm(joined(graph_head(blurs), ";"@)),
{
    reveal_strlit("[0:v][0:a][1:v][1:a]concat=n=2:v=1:a=1[cv0][araw]");
    reveal_strlit(";");
    let head = graph_head(blurs);
    assert forall|i: int| 0 <= i < head.len() implies is_calm(#[trigger] head[i]) by {
        if i > 0 {
            let k = (i - 1) as nat;
            let input = "["@ + chain_label(k) + "]"@;
            let output = "["@ + chain_label(k + 1) + "]"@;
            assert(head[i] == blur_stage(k, blurs[i - 1], chain_label(k), chain_label(k + 1)));
            lemma_chain_label_is_calm(k);
            lemma_chain_label_is_calm(k + 1);
            lemma_blur_is_calm(k, blurs[i - 1]);
            lemma_calm_sum(input, blur_text(k, blurs[i - 1]));
            lemma_calm_sum(input + blur_text(k, blurs[i - 1]), output);
        }
    }
    lemma_calm_join(head, ";"@);
}

proof fn lemma_video_filters_are_calm(fade: FadeParams)
    ensures
        is_calm(joined(video_filters(fade), ","@)),
{
    reveal_strlit("fade=t=in:st=");
    reveal_strlit("fade=t=out:st=");
    reveal_strlit(",");
    lemma_fade_is_calm("fade=t=in:st="@, fade.black_hold, fade.fadein);
    lemma_fade_is_calm("fade=t=out:st="@, fadeout_start(fade), fade.fadeout);
    lemma_calm_join(video_filters(fade), ","@);
}

proof fn lemma_sound_is_calm(fade: FadeParams)
    ensures
        is_calm(filter_chain("araw"@, audio_filters(fade), "a"@)),
{
    reveal_strlit("araw");
    reveal_strlit("a");
    reveal_strlit(",");
    reveal_strlit("afade=t=in:st=");
    reveal_strlit("afade=t=out:st=");
    reveal_strlit("volume=enable='between(t,0,");
    reveal_strlit(")':volume=0");
    let start = audio_fade_start(fade);
    lemma_fade_is_calm("afade=t=in:st="@, start, fade.fadein);
    lemma_fade_is_calm("afade=t=out:st="@, fadeout_start(fade), fade.fadeout);
    lemma_time_is_calm(start);
    lemma_smooth_is_calm("volume=enable='between(t,0,"@);
    lemma_smooth_is_calm(")':volume=0"@);
    lemma_calm_sum("volume=enable='between(t,0,"@, time_text(start));
    lemma_calm_sum("volume=enable='between(t,0,"@ + time_text(start), ")':volume=0"@);
    let filters = audio_filters(fade);
    assert forall|i: int| 0 <= i < filters.len() implies is_calm(#[trigger] filters[i]) by {
        if is_positive(start) {
            if i == 0 {
                assert(filters[i] == silence_text(start));
            } else if i == 1 {
                assert(filters[i] == fade_text("afade=t=in:st="@, start, fade.fadein));
            }
        } else if i == 0 {
            assert(filters[i] == fade_text("afade=t=in:st="@, start, fade.fadein));
        }
    }
    lemma_calm_join(filters, ","@);
    lemma_label_is_calm("araw"@);
    lemma_label_is_calm("a"@);
    let input = "["@ + "araw"@ + "]"@;
    let body = joined(filters, ","@);
    let output = "["@ + "a"@ + "]"@;
    lemma_calm_sum(input, body);
    lemma_calm_sum(input + body, output);
    assert(filter_chain("araw"@, filters, "a"@) =~= input + body + output);
}

/// Whether a text stands in another in one place and no other.
pub open spec fn occurs_once(s: Seq<char>, pat: Seq<char>) -> bool {
    exists|i: int| occurs_at(s, pat, i) && forall|j: int| #[trigger] occurs_at(s, pat, j) ==> j == i
}

proof fn lemma_calm_has_no_label(s: Seq<char>)
    requires
        is_calm(s),
    ensures
        !occurs(s, "[v]"@),
{
    reveal_strlit("[v]");
    if occurs(s, "[v]"@) {
        let i = choose|i: int| occurs_at(s, "[v]"@, i);
        assert(s.subrange(i, i + 3)[0] == s[i]);
        assert(s.subrange(i, i + 3)[1] == s[i + 1]);
    }
}

proof fn lemma_label_once(front: Seq<char>, back: Seq<char>)
    requires
        is_calm(front),
        is_calm(back),
    ensures
        occurs_once(front + "[v]"@ + back, "[v]"@),
{
    reveal_strlit("[v]");
    let s = front + "[v]"@ + back;
    let at = front.len() as int;
    assert(s.subrange(at, at + 3) =~= "[v]"@);
    assert(occurs_at(s, "[v]"@, at));
    assert forall|j: int| #[trigger] occurs_at(s, "[v]"@, j) implies j == at by {
        assert(s.subrange(j, j + 3)[0] == s[j]);
        assert(s.subrange(j, j + 3)[1] == s[j + 1]);
        if j + 1 < at {
            assert(s[j] == front[j] && s[j + 1] == front[j + 1]);
        } else if j + 1 == at {
            assert(s[j] == front.last());
        } else if j == at + 1 || j == at + 2 {
            assert(s[j] == "[v]"@[j - at]);
        } else if j >= at + 3 {
            assert(s[j] == back[j - at - 3] && s[j + 1] == back[j - at - 2]);
        }
    }
}

proof fn lemma_replace_label(front: Seq<char>, back: Seq<char>, by: Seq<char>)
    requires
        is_calm(front),
        is_calm(back),
    ensures
        replaced(front + "[v]"@ + back, "[v]"@, by) == front + by + back,
    decreases front.len(),
{
    reveal_strlit("[v]");
    let s = front + "[v]"@ + back;
    if front.len() == 0 {
        assert(s.subrange(0, 3) =~= "[v]"@);
        assert(s.skip(3) =~= back);
        lemma_calm_has_no_label(back);
        law_nothing_to_replace(back, "[v]"@, by);
        assert(front + by + back =~= by + back);
    } else {
        let rest = front.drop_first();
        assert(front.last() == front[front.len() - 1]);
        if "[v]"@.is_prefix_of(s) {
            assert(s.subrange(0, 3)[0] == s[0]);
            assert(s.subrange(0, 3)[1] == s[1]);
            assert(s[0] == front[0]);
            if front.len() > 1 {
                assert(s[1] == front[1]);
            }
        }
        assert(is_calm(rest)) by {
            assert forall|i: int| 0 <= i < rest.len() - 1 implies !(#[trigger] rest[i] == '['
                && rest[i + 1] == 'v') by {
                assert(rest[i] == front[i + 1] && rest[i + 1] == front[i + 2]);
            }
            if rest.len() > 0 {
                assert(rest.last() == front.last());
            }
        }
        lemma_replace_label(rest, back, by);
        assert(s.drop_first() =~= rest + "[v]"@ + back);
        assert(seq![s[0]] + (rest + by + back) =~= front + by + back);
    }
}

/// The same fades, without a title.
pub open spec fn untitled<'a>(fade: FadeParams<'a>) -> FadeParams<'a> {
    FadeParams { title: None, ..fade }
}

/// What stands before the label of the faded picture.
spec fn graph_front(blurs: Seq<BlurRegion>, fade: FadeParams) -> Seq<char> {
    joined(graph_head(blurs), ";"@) + ";"@ + ("["@ + chain_label(blurs.len()) + "]"@) + joined(
        video_filters(fade),
        ","@,
    )
}

/// What stands behind it, but for the title.
spec fn graph_back(fade: FadeParams) -> Seq<char> {
    ";"@ + filter_chain("araw"@, audio_filters(fade), "a"@)
}

proof fn lemma_front_and_back_are_calm(blurs: Seq<BlurRegion>, fade: FadeParams)
    ensures
        is_calm(graph_front(blurs, fade)),
        is_calm(graph_back(fade)),
{
    reveal_strlit(";");
    let start = joined(graph_head(blurs), ";"@);
    let input = "["@ + chain_label(blurs.len()) + "]"@;
    lemma_head_is_calm(blurs);
    lemma_chain_label_is_calm(blurs.len());
    lemma_video_filters_are_calm(fade);
    lemma_sound_is_calm(fade);
    lemma_smooth_is_calm(";"@);
    lemma_calm_sum(start, ";"@);
    lemma_calm_sum(start + ";"@, input);
    lemma_calm_sum(start + ";"@ + input, joined(video_filters(fade), ","@));
    lemma_calm_sum(";"@, filter_chain("araw"@, audio_filters(fade), "a"@));
}

proof fn lemma_regroup(
    start: Seq<char>,
    sep: Seq<char>,
    open: Seq<char>,
    input: Seq<char>,
    shut: Seq<char>,
    body: Seq<char>,
    label: Seq<char>,
    sound: Seq<char>,
)
    ensures
        start + sep + (open + input + shut + body + open + label + shut) + sep + sound == (start
            + sep + (open + input + shut) + body) + (open + label + shut) + (sep + sound),
{
    let chain = open + input + shut + body + open + label + shut;
    let parts = (open + input + shut) + body + (open + label + shut);
    assert(chain =~= parts);
    assert(start + sep + parts =~= (start + sep + (open + input + shut) + body) + (open + label
        + shut));
    assert(start + sep + parts + sep + sound =~= (start + sep + parts) + (sep + sound));
}

/// A title adds a last stage to the graph and changes nothing before it, but
/// that the picture goes to that stage: its label `[v]`, which stands there in
/// one place, becomes `[vfaded]`. The last stage draws the title and gives `[v]`.
pub proof fn law_title_adds_a_last_stage<'a>(blurs: Seq<BlurRegion>, fade: FadeParams<'a>)
    requires
        fade.title is Some,
    ensures
        occurs_once(graph_text(blurs, untitled(fade)), "[v]"@),
        graph_text(blurs, fade) == replaced(
            graph_text(blurs, untitled(fade)),
            "[v]"@,
            "[vfaded]"@,
        ) + ";"@ + filter_chain("vfaded"@, title_filters(fade.title->0@, fade), "v"@),
        (replaced(graph_text(blurs, untitled(fade)), "[v]"@, "[vfaded]"@)
            + ";[vfaded]drawtext=text='"@).is_prefix_of(graph_text(blurs, fade)),
        "[v]"@.is_suffix_of(graph_text(blurs, fade)),
{
    let front = graph_front(blurs, fade);
    let back = graph_back(fade);
    let title = filter_chain("vfaded"@, title_filters(fade.title->0@, fade), "v"@);
    let base = graph_text(blurs, untitled(fade));
    let renamed = replaced(base, "[v]"@, "[vfaded]"@);
    lemma_graph_around_label(blurs, fade);
    lemma_front_and_back_are_calm(blurs, fade);
    lemma_label_once(front, back);
    lemma_replace_label(front, back, "[vfaded]"@);
    assert(renamed == front + "[vfaded]"@ + back);
    assert(graph_text(blurs, fade) == renamed + ";"@ + title);
    lemma_title_stage(fade);
    lemma_title_ends(renamed, title);
}

proof fn lemma_graph_around_label<'a>(blurs: Seq<BlurRegion>, fade: FadeParams<'a>)
    requires
        fade.title is Some,
    ensures
        graph_text(blurs, untitled(fade)) == graph_front(blurs, fade) + "[v]"@ + graph_back(fade),
        graph_text(blurs, fade) == graph_front(blurs, fade) + "[vfaded]"@ + graph_back(fade)
            + ";"@ + filter_chain("vfaded"@, title_filters(fade.title->0@, fade), "v"@),
{
    let plain = untitled(fade);
    let start = joined(graph_head(blurs), ";"@);
    let label = chain_label(blurs.len());
    let body = joined(video_filters(fade), ","@);
    let sound = filter_chain("araw"@, audio_filters(fade), "a"@);
    lemma_graph_pieces(blurs, plain, "v"@);
    lemma_graph_pieces(blurs, fade, "vfaded"@);
    lemma_regroup(start, ";"@, "["@, label, "]"@, body, "v"@, sound);
    lemma_regroup(start, ";"@, "["@, label, "]"@, body, "vfaded"@, sound);
    assert("["@ + "v"@ + "]"@ == "[v]"@) by {
        reveal_strlit("[");
        reveal_strlit("]");
        reveal_strlit("v");
        reveal_strlit("[v]");
    }
    assert("["@ + "vfaded"@ + "]"@ == "[vfaded]"@) by {
        reveal_strlit("[");
        reveal_strlit("]");
        reveal_strlit("vfaded");
        reveal_strlit("[vfaded]");
    }
}

proof fn lemma_title_ends(renamed: Seq<char>, title: Seq<char>)
    requires
        "[vfaded]drawtext=text='"@.is_prefix_of(title),
        "[v]"@.is_suffix_of(title),
    ensures
        (renamed + ";[vfaded]drawtext=text='"@).is_prefix_of(renamed + ";"@ + title),
        "[v]"@.is_suffix_of(renamed + ";"@ + title),
{
    let first = "[vfaded]drawtext=text='"@;
    let rest = title.skip(first.len() as int);
    assert(title =~= first + rest) by {
        assert(title.subrange(0, first.len() as int) =~= first);
    }
    assert(";[vfaded]drawtext=text='"@ =~= ";"@ + first) by {
        reveal_strlit(";");
        reveal_strlit(";[vfaded]drawtext=text='");
        reveal_strlit("[vfaded]drawtext=text='");
    }
    assert(renamed + ";"@ + (first + rest) =~= (renamed + (";"@ + first)) + rest);
    lemma_begins(renamed + (";"@ + first), rest);
    lemma_begins(renamed + ";"@, title);
    lemma_suffix_of_suffix("[v]"@, title, renamed + ";"@ + title);
}

/// The graph up to its title, piece by piece.
proof fn lemma_graph_pieces(blurs: Seq<BlurRegion>, fade: FadeParams, faded: Seq<char>)
    requires
        faded == match fade.title {
            Some(_) => "vfaded"@,
            None => "v"@,
        },
    ensures
        ({
            let until = joined(graph_head(blurs), ";"@) + ";"@ + filter_chain(
                chain_label(blurs.len()),
                video_filters(fade),
                faded,
            ) + ";"@ + filter_chain("araw"@, audio_filters(fade), "a"@);
            graph_text(blurs, fade) == match fade.title {
                Some(title) => until + ";"@ + filter_chain(
                    "vfaded"@,
                    title_filters(title@, fade),
                    "v"@,
                ),
                None => until,
            }
        }),
{
    let head = graph_head(blurs);
    let video = filter_chain(chain_label(blurs.len()), video_filters(fade), faded);
    let sound = filter_chain("araw"@, audio_filters(fade), "a"@);
    let stages = head + seq![video, sound];
    assert(stages.drop_last() =~= head.push(video));
    assert(head.push(video).drop_last() =~= head);
    assert(joined(head.push(video), ";"@) == joined(head, ";"@) + ";"@ + video);
    assert(joined(stages, ";"@) == joined(head, ";"@) + ";"@ + video + ";"@ + sound);
    match fade.title {
        Some(title) => {
            let drawn = filter_chain("vfaded"@, title_filters(title@, fade), "v"@);
            assert(graph_stages(blurs, fade) =~= stages.push(drawn));
            assert(stages.push(drawn).drop_last() =~= stages);
        },
        None => {
            assert(graph_stages(blurs, fade) =~= stages);
        },
    }
}

/// A filter of the title begins with its name and the quote before its text.
proof fn lemma_drawtext_begins(line: Seq<char>, i: int, n: int, fade: FadeParams)
    ensures
        "drawtext=text='"@.is_prefix_of(drawtext_text(line, i, n, fade)),
{
    let open = "drawtext=text='"@;
    let first = drawtext_text(line, i, n, fade);
    let rest = first.skip(open.len() as int);
    assert(first =~= open + rest);
    lemma_begins(open, rest);
}

proof fn lemma_title_begins(fade: FadeParams)
    requires
        fade.title is Some,
    ensures
        "drawtext=text='"@.is_prefix_of(joined(title_filters(fade.title->0@, fade), ","@)),
{
    let lines = pieces(fade.title->0@, '/');
    let filters = title_filters(fade.title->0@, fade);
    lemma_pieces_nonempty(fade.title->0@, '/');
    let first = drawtext_text(lines[0], 0, lines.len() as int, fade);
    assert(filters[0] == first);
    lemma_drawtext_begins(lines[0], 0, lines.len() as int, fade);
    lemma_join_ends(filters, ","@);
    lemma_prefix_of_prefix("drawtext=text='"@, first, joined(filters, ","@));
}

proof fn lemma_prefix_behind(label: Seq<char>, open: Seq<char>, body: Seq<char>, tail: Seq<char>)
    requires
        open.is_prefix_of(body),
    ensures
        (label + open).is_prefix_of(label + body + tail),
{
    let after = body.skip(open.len() as int);
    assert(body =~= open + after) by {
        assert(body.subrange(0, open.len() as int) =~= open);
    }
    assert(label + (open + after) + tail =~= (label + open) + (after + tail));
    lemma_begins(label + open, after + tail);
}

/// The stage of the title begins with its label and the first line's filter,
/// and gives the picture.
proof fn lemma_title_stage(fade: FadeParams)
    requires
        fade.title is Some,
    ensures
        "[vfaded]drawtext=text='"@.is_prefix_of(
            filter_chain("vfaded"@, title_filters(fade.title->0@, fade), "v"@),
        ),
        "[v]"@.is_suffix_of(
            filter_chain("vfaded"@, title_filters(fade.title->0@, fade), "v"@),
        ),
{
    let filters = title_filters(fade.title->0@, fade);
    let body = joined(filters, ","@);
    let label = "["@ + "vfaded"@ + "]"@;
    let tail = "["@ + "v"@ + "]"@;
    lemma_title_begins(fade);
    lemma_prefix_behind(label, "drawtext=text='"@, body, tail);
    lemma_filter_chain("vfaded"@, filters, "v"@);
    assert(filter_chain("vfaded"@, filters, "v"@) =~= label + body + tail);
    assert(label + "drawtext=text='"@ =~= "[vfaded]drawtext=text='"@) by {
        reveal_strlit("[");
        reveal_strlit("vfaded");
        reveal_strlit("]");
        reveal_strlit("drawtext=text='");
        reveal_strlit("[vfaded]drawtext=text='");
    }
    assert(tail =~= "[v]"@) by {
        reveal_strlit("[");
        reveal_strlit("v");
        reveal_strlit("]");
        reveal_strlit("[v]");
    }
}

/// A preview's graph starts from the video itself and ends in the stream that
/// the command maps to the output.
pub proof fn law_preview_goes_from_video_to_output(blurs: Seq<BlurRegion>)
    requires
        blurs.len() > 0,
    ensures
        "[0:v]"@.is_prefix_of(preview_text(blurs)),
        "[v]"@.is_suffix_of(preview_text(blurs)),
{
    reveal_strlit("[");
    reveal_strlit("]");
    reveal_strlit("v");
    reveal_strlit("0:v");
    reveal_strlit("[v]");
    reveal_strlit("[0:v]");
    assert("["@ + "v"@ + "]"@ =~= "[v]"@);
    assert("["@ + "0:v"@ + "]"@ =~= "[0:v]"@);
    let n = blurs.len();
    let stages = preview_stages(blurs);
    lemma_blur_stage(0, blurs[0], preview_label(0, n), preview_label(1, n));
    lemma_blur_stage(
        (n - 1) as nat,
        blurs[n - 1],
        preview_label((n - 1) as nat, n),
        preview_label(n, n),
    );
    lemma_join_ends(stages, ";"@);
    lemma_prefix_of_prefix("[0:v]"@, stages[0], preview_text(blurs));
    lemma_suffix_of_suffix("[v]"@, stages.last(), preview_text(blurs));
}

proof fn lemma_prefix_of_prefix(a: Seq<char>, b: Seq<char>, c: Seq<char>)
    requires
        a.is_prefix_of(b),
        b.is_prefix_of(c),
    ensures
        a.is_prefix_of(c),
{
    assert(c.subrange(0, a.len() as int) =~= c.subrange(0, b.len() as int).subrange(
        0,
        a.len() as int,
    ));
}

proof fn lemma_suffix_of_suffix(a: Seq<char>, b: Seq<char>, c: Seq<char>)
    requires
        a.is_suffix_of(b),
        b.is_suffix_of(c),
    ensures
        a.is_suffix_of(c),
{
    assert(c.subrange(c.len() - a.len(), c.len() as int) =~= c.subrange(
        c.len() - b.len(),
        c.len() as int,
    ).subrange(b.len() - a.len(), b.len() as int));
}

/// The sound is at full volume just when the picture starts to appear, where
/// the black lasts long enough for that: the fade begins when it should, to
/// within one part in 2⁵³ of the time before.
pub proof fn law_sound_before_picture(fade: FadeParams)
    requires
        fade.fadein.is_finite(),
        fade.black_hold.is_finite(),
        0 <= fade.fadein.value() <= fade.black_hold.value(),
    ensures
        audio_fade_start(fade).is_finite(),
        is_near(
            audio_fade_start(fade).value(),
            fade.black_hold.value() - fade.fadein.value(),
        ),
{
    lemma_time_left(fade.black_hold, fade.fadein);
}

/// The fade-out ends with the output, where the output is long enough for it:
/// it begins when it should, to within one part in 2⁵³ of the time before.
pub proof fn law_fade_out_ends_with_output(fade: FadeParams)
    requires
        fade.fadeout.is_finite(),
        fade.total_duration_secs.is_finite(),
        0 <= fade.fadeout.value() <= fade.total_duration_secs.value(),
    ensures
        fadeout_start(fade).is_finite(),
        is_near(
            fadeout_start(fade).value(),
            fade.total_duration_secs.value() - fade.fadeout.value(),
        ),
{
    lemma_time_left(fade.total_duration_secs, fade.fadeout);
}

proof fn lemma_time_left(all: Binary64, last: Binary64)
    requires
        all.is_finite(),
        last.is_finite(),
        0 <= last.value() <= all.value(),
    ensures
        at_least_zero(difference(all, last)).is_finite(),
        is_near(at_least_zero(difference(all, last)).value(), all.value() - last.value()),
{
    law_difference_is_near(all, last);
    law_order_is_that_of_values(difference(all, last), all);
    law_whole_is_exact(0);
    law_order_is_that_of_values(zero(), zero());
}

/// A text with none of the characters that have a meaning stands as it is.
pub proof fn law_plain_text_is_not_escaped(s: Seq<char>)
    requires
        forall|i: int|
            0 <= i < s.len() ==> #[trigger] s[i] != '\\' && s[i] != '\'' && s[i] != ':' && s[i]
                != '%',
    ensures
        escaped(s) == s,
    decreases s.len(),
{
    if s.len() > 0 {
        let before = s.drop_last();
        assert forall|i: int| 0 <= i < before.len() implies #[trigger] before[i] != '\\'
            && before[i] != '\'' && before[i] != ':' && before[i] != '%' by {
            assert(before[i] == s[i]);
        }
        law_plain_text_is_not_escaped(before);
        assert(s.last() == s[s.len() - 1]);
        assert(before + seq![s.last()] =~= s);
    } else {
        assert(s =~= Seq::empty());
    }
}

/// A text is escaped piece by piece.
pub proof fn law_escape_in_pieces(a: Seq<char>, b: Seq<char>)
    ensures
        escaped(a + b) == escaped(a) + escaped(b),
    decreases b.len(),
{
    if b.len() == 0 {
        assert(a + b =~= a);
        assert(escaped(a) + escaped(b) =~= escaped(a));
    } else {
        law_escape_in_pieces(a, b.drop_last());
        assert((a + b).drop_last() =~= a + b.drop_last());
        assert((a + b).last() == b.last());
        assert(escaped(a + b) =~= escaped(a) + escaped(b));
    }
}

/// A failure is told in lines that ffmpeg wrote and that are no progress reports.
pub proof fn law_failure_is_told_without_progress(lines: Seq<Seq<char>>)
    ensures
        forall|i: int|
            0 <= i < error_lines(lines).len() ==> !is_progress(#[trigger] error_lines(lines)[i])
                && lines.contains(error_lines(lines)[i]),
    decreases lines.len(),
{
    reveal(Seq::filter);
    if lines.len() > 0 {
        let before = lines.drop_last();
        law_failure_is_told_without_progress(before);
        assert forall|i: int| 0 <= i < error_lines(lines).len() implies !is_progress(
            #[trigger] error_lines(lines)[i],
        ) && lines.contains(error_lines(lines)[i]) by {
            if i < error_lines(before).len() {
                let l = error_lines(before)[i];
                assert(error_lines(lines)[i] == l);
                let k = choose|k: int| 0 <= k < before.len() && before[k] == l;
                assert(lines[k] == l);
            } else {
                assert(lines[lines.len() - 1] == lines.last());
            }
        }
    }
}

/// No progress is ever shown as more than all of it.
pub proof fn law_percent_in_range(out_us: nat, total: Binary64)
    requires
        is_positive(total),
    ensures
        percent(out_us, total) <= 100,
{
    if less(share(out_us, total), whole(100)) {
        lemma_share_is_not_negative(out_us, total);
        law_below_whole(share(out_us, total), 100);
    }
}

proof fn lemma_share_is_not_negative(out_us: nat, total: Binary64)
    requires
        is_positive(total),
    ensures
        !share(out_us, total).is_negative(),
{
    let (elapsed, million) = (whole(out_us), whole(1_000_000));
    law_whole_is_not_negative(out_us);
    law_whole_is_not_negative(1_000_000);
    law_signs(elapsed, million);
    law_signs(quotient(elapsed, million), total);
    law_signs(quotient(quotient(elapsed, million), total), total);
}

} // verus!
