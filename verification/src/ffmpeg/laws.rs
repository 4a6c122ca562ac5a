//! What the filter graphs and the commands come to, as ffmpeg reads them.

use vstd::arithmetic::div_mod::lemma_fundamental_div_mod;
use vstd::prelude::*;

use crate::binary64::writing::{sign_text, ten_to};
use crate::binary64::{
    at_least_zero, difference, hundredfold, is_positive, law_below_whole, law_hundredfold_grows,
    law_order_is_that_of_values, law_positive_is_above_zero, law_powers_of_two, law_quotient_grows,
    law_quotient_shrinks, law_whole_grows, law_whole_is_exact, law_whole_is_finite,
    law_whole_is_not_negative, less, nearest, one, quotient, whole, Binary64,
};
use crate::cli::BlurRegion;
use crate::ffmpeg::audio::pcm_args;
use crate::ffmpeg::command::{time_text, words, ArgView};
use crate::ffmpeg::concat::{
    audio_filters, blur_stage, blur_text, chain_label, encoder_args, error_lines, escaped,
    escaped_char, fade_text, filter_chain, graph_stages, graph_text, is_progress,
    law_percent_in_range, law_title_adds_a_last_stage, line_offset, out_time, percent, preview_args,
    preview_label, preview_stages, preview_text, progress_args, share, single_label, single_stages,
    title_filters, video_filters, ConcatParams, FadeParams, SingleInputParams,
};
use crate::ffmpeg::detect::EncoderConfig;
use crate::number::{
    dec, dec_signed, is_digit, law_decimal_injective, lemma_dec, read_number, zero_padded,
};
use crate::text::{
    joined, law_join_in_parts, law_join_of_one, law_occurs_inside, law_one_piece,
    law_split_in_parts, law_split_of_join, lemma_occurs_in_join, lemma_occurs_inside, occurs,
    pieces, replaced, trimmed,
};

verus! {

// ── Chains ───────────────────────────────────────────────────────────────
//
// ffmpeg reads a graph as chains of filters with semicolons between them.

/// Whether three chains of a graph, from `at` on, blur a region: the stream
/// `input` is split, one copy is cropped to the region and blurred, and laid
/// over the other where it was, which gives `output`.
#[verifier::opaque]
pub open spec fn blurs_region(
    chains: Seq<Seq<char>>,
    at: int,
    i: nat,
    region: BlurRegion,
    input: Seq<char>,
    output: Seq<char>,
) -> bool {
    let (x, y) = (dec(region.x as nat), dec(region.y as nat));
    let (w, h) = (dec(region.width as nat), dec(region.height as nat));
    let n = dec(i);
    &&& chains[at] == "["@ + input + "]"@ + ("split[main"@ + n + "][blur"@ + n + "]"@)
    &&& chains[at + 1] == "[blur"@ + n + "]crop="@ + w + ":"@ + h + ":"@ + x + ":"@ + y
        + ",boxblur=10[blurred"@ + n + "]"@
    &&& chains[at + 2] == "[main"@ + n + "][blurred"@ + n + "]overlay="@ + x + ":"@ + y + ("["@
        + output + "]"@)
}

/// Whether there is no semicolon in a text.
spec fn is_chain(s: Seq<char>) -> bool {
    !s.contains(';')
}

proof fn lemma_chain_sum(a: Seq<char>, b: Seq<char>)
    requires
        is_chain(a),
        is_chain(b),
    ensures
        is_chain(a + b),
{
    if (a + b).contains(';') {
        let i = choose|i: int| 0 <= i < (a + b).len() && (a + b)[i] == ';';
        if i < a.len() {
            assert(a[i] == ';');
        } else {
            assert(b[i - a.len()] == ';');
        }
    }
}

proof fn lemma_group(a: Seq<char>, b: Seq<char>, c: Seq<char>)
    ensures
        (a + b) + c == a + (b + c),
{
    assert((a + b) + c =~= a + (b + c));
}

proof fn lemma_number_is_chain(n: nat)
    ensures
        is_chain(dec(n)),
{
    lemma_dec(n);
    if dec(n).contains(';') {
        let i = choose|i: int| 0 <= i < dec(n).len() && dec(n)[i] == ';';
        assert(is_digit(dec(n)[i]));
    }
}

proof fn lemma_padded_is_chain(n: nat, width: nat)
    ensures
        is_chain(zero_padded(n, width)),
    decreases width,
{
    if width > 0 {
        let before = zero_padded(n / 10, (width - 1) as nat);
        let now = zero_padded(n, width);
        lemma_padded_is_chain(n / 10, (width - 1) as nat);
        if now.contains(';') {
            let i = choose|i: int| 0 <= i < now.len() && now[i] == ';';
            if i < before.len() {
                assert(before[i] == ';');
            }
        }
    }
}

proof fn lemma_time_is_chain(t: Binary64)
    ensures
        is_chain(time_text(t)),
{
    reveal_strlit("-");
    reveal_strlit("");
    reveal_strlit(".");
    reveal_strlit("NaN");
    reveal_strlit("inf");
    let sign = sign_text(t.is_negative());
    if t.is_finite() {
        let q = nearest(t.size() * ten_to(6), one());
        let front = dec(q / ten_to(6));
        let part = zero_padded(q % ten_to(6), 6);
        lemma_number_is_chain(q / ten_to(6));
        lemma_padded_is_chain(q % ten_to(6), 6);
        lemma_chain_sum(sign, front);
        lemma_chain_sum(sign + front, "."@);
        lemma_chain_sum(sign + front + "."@, part);
    } else {
        lemma_chain_sum(sign, "inf"@);
    }
}

/// The three chains of a blur stage.
proof fn lemma_stage_chains(i: nat, region: BlurRegion, input: Seq<char>, output: Seq<char>)
    requires
        is_chain(input),
        is_chain(output),
    ensures
        pieces(blur_stage(i, region, input, output), ';').len() == 3,
        blurs_region(
            pieces(blur_stage(i, region, input, output), ';'),
            0,
            i,
            region,
            input,
            output,
        ),
{
    reveal(blurs_region);
    let n = dec(i);
    let (x, y) = (dec(region.x as nat), dec(region.y as nat));
    let (w, h) = (dec(region.width as nat), dec(region.height as nat));
    let head = "["@ + input + "]"@;
    let tail = "["@ + output + "]"@;
    let first = "split[main"@ + n + "][blur"@ + n + "]"@;
    let second = "[blur"@ + n + "]crop="@ + w + ":"@ + h + ":"@ + x + ":"@ + y
        + ",boxblur=10[blurred"@ + n + "]"@;
    let third = "[main"@ + n + "][blurred"@ + n + "]overlay="@ + x + ":"@ + y;
    lemma_blur_text_in_three(i, region);
    assert(";"@ =~= seq![';']) by {
        reveal_strlit(";");
    }
    let semi = seq![';'];
    assert(blur_text(i, region) == first + semi + second + semi + third);
    assert(head + (first + semi + second + semi + third) + tail =~= (head + first) + semi + second
        + semi + (third + tail));
    law_split_in_parts((head + first) + semi + second, third + tail, ';');
    law_split_in_parts(head + first, second, ';');
    lemma_three_are_chains(i, region, input, output);
    law_one_piece(head + first, ';');
    law_one_piece(second, ';');
    law_one_piece(third + tail, ';');
    let chains = pieces(blur_stage(i, region, input, output), ';');
    assert(chains =~= seq![head + first, second, third + tail]);
}

proof fn lemma_three_are_chains(i: nat, region: BlurRegion, input: Seq<char>, output: Seq<char>)
    requires
        is_chain(input),
        is_chain(output),
    ensures
        ({
            let n = dec(i);
            let (x, y) = (dec(region.x as nat), dec(region.y as nat));
            let (w, h) = (dec(region.width as nat), dec(region.height as nat));
            &&& is_chain(
                "["@ + input + "]"@ + ("split[main"@ + n + "][blur"@ + n + "]"@),
            )
            &&& is_chain(
                "[blur"@ + n + "]crop="@ + w + ":"@ + h + ":"@ + x + ":"@ + y
                    + ",boxblur=10[blurred"@ + n + "]"@,
            )
            &&& is_chain(
                "[main"@ + n + "][blurred"@ + n + "]overlay="@ + x + ":"@ + y + ("["@ + output
                    + "]"@),
            )
        }),
{
    reveal_strlit("split[main");
    reveal_strlit("][blur");
    reveal_strlit("];[blur");
    reveal_strlit("]crop=");
    reveal_strlit(":");
    reveal_strlit(",boxblur=");
    reveal_strlit("[blurred");
    reveal_strlit("];[main");
    reveal_strlit("][blurred");
    reveal_strlit("]overlay=");
    reveal_strlit("]");
    reveal_strlit(";");
    reveal_strlit("[blur");
    reveal_strlit(",boxblur=10[blurred");
    reveal_strlit("[main");
    reveal_strlit("[");
    let n = dec(i);
    let (x, y) = (dec(region.x as nat), dec(region.y as nat));
    let (w, h) = (dec(region.width as nat), dec(region.height as nat));
    lemma_number_is_chain(i);
    lemma_number_is_chain(region.x as nat);
    lemma_number_is_chain(region.y as nat);
    lemma_number_is_chain(region.width as nat);
    lemma_number_is_chain(region.height as nat);
    let head0 = "["@;
    lemma_chain_sum(head0, input);
    let head1 = head0 + input;
    lemma_chain_sum(head1, "]"@);
    let head2 = head1 + "]"@;
    let tail0 = "["@;
    lemma_chain_sum(tail0, output);
    let tail1 = tail0 + output;
    lemma_chain_sum(tail1, "]"@);
    let tail2 = tail1 + "]"@;
    let a0 = "split[main"@;
    lemma_chain_sum(a0, n);
    let a1 = a0 + n;
    lemma_chain_sum(a1, "][blur"@);
    let a2 = a1 + "][blur"@;
    lemma_chain_sum(a2, n);
    let a3 = a2 + n;
    lemma_chain_sum(a3, "]"@);
    let a4 = a3 + "]"@;
    lemma_chain_sum(head2, a4);
    let b0 = "[blur"@;
    lemma_chain_sum(b0, n);
    let b1 = b0 + n;
    lemma_chain_sum(b1, "]crop="@);
    let b2 = b1 + "]crop="@;
    lemma_chain_sum(b2, w);
    let b3 = b2 + w;
    lemma_chain_sum(b3, ":"@);
    let b4 = b3 + ":"@;
    lemma_chain_sum(b4, h);
    let b5 = b4 + h;
    lemma_chain_sum(b5, ":"@);
    let b6 = b5 + ":"@;
    lemma_chain_sum(b6, x);
    let b7 = b6 + x;
    lemma_chain_sum(b7, ":"@);
    let b8 = b7 + ":"@;
    lemma_chain_sum(b8, y);
    let b9 = b8 + y;
    lemma_chain_sum(b9, ",boxblur=10[blurred"@);
    let b10 = b9 + ",boxblur=10[blurred"@;
    lemma_chain_sum(b10, n);
    let b11 = b10 + n;
    lemma_chain_sum(b11, "]"@);
    let b12 = b11 + "]"@;
    let c0 = "[main"@;
    lemma_chain_sum(c0, n);
    let c1 = c0 + n;
    lemma_chain_sum(c1, "][blurred"@);
    let c2 = c1 + "][blurred"@;
    lemma_chain_sum(c2, n);
    let c3 = c2 + n;
    lemma_chain_sum(c3, "]overlay="@);
    let c4 = c3 + "]overlay="@;
    lemma_chain_sum(c4, x);
    let c5 = c4 + x;
    lemma_chain_sum(c5, ":"@);
    let c6 = c5 + ":"@;
    lemma_chain_sum(c6, y);
    let c7 = c6 + y;
    lemma_chain_sum(c7, tail2);
}

proof fn lemma_blur_text_in_three(i: nat, region: BlurRegion)
    ensures
        ({
            let n = dec(i);
            let (x, y) = (dec(region.x as nat), dec(region.y as nat));
            let (w, h) = (dec(region.width as nat), dec(region.height as nat));
            let first = "split[main"@ + n + "][blur"@ + n + "]"@;
            let second = "[blur"@ + n + "]crop="@ + w + ":"@ + h + ":"@ + x + ":"@ + y
                + ",boxblur=10[blurred"@ + n + "]"@;
            let third = "[main"@ + n + "][blurred"@ + n + "]overlay="@ + x + ":"@ + y;
            blur_text(i, region) == first + ";"@ + second + ";"@ + third
        }),
{
    let n = dec(i);
    let (x, y) = (dec(region.x as nat), dec(region.y as nat));
    let (w, h) = (dec(region.width as nat), dec(region.height as nat));
    lemma_literals_split();
    let ten = dec(10);
    let begin = "split[main"@ + n + "][blur"@ + n;
    let first = begin + "]"@;
    let k = first + ";"@;
    assert(begin + "];[blur"@ == k + "[blur"@) by {
        lemma_group(begin, "]"@ + ";"@, "[blur"@);
        lemma_group(begin, "]"@, ";"@);
    }
    let r0 = "[blur"@;
    lemma_group(k, r0, n);
    let r1 = r0 + n;
    lemma_group(k, r1, "]crop="@);
    let r2 = r1 + "]crop="@;
    lemma_group(k, r2, w);
    let r3 = r2 + w;
    lemma_group(k, r3, ":"@);
    let r4 = r3 + ":"@;
    lemma_group(k, r4, h);
    let r5 = r4 + h;
    lemma_group(k, r5, ":"@);
    let r6 = r5 + ":"@;
    lemma_group(k, r6, x);
    let r7 = r6 + x;
    lemma_group(k, r7, ":"@);
    let r8 = r7 + ":"@;
    lemma_group(k, r8, y);
    let r9 = r8 + y;
    lemma_group(k, r9, ",boxblur="@);
    let r10 = r9 + ",boxblur="@;
    lemma_group(k, r10, ten);
    let r11 = r10 + ten;
    lemma_group(k, r11, "[blurred"@);
    let r12 = r11 + "[blurred"@;
    lemma_group(k, r12, n);
    let r13 = r12 + n;
    let second = "[blur"@ + n + "]crop="@ + w + ":"@ + h + ":"@ + x + ":"@ + y
        + ",boxblur=10[blurred"@ + n + "]"@;
    assert(r12 == r9 + ",boxblur=10[blurred"@) by {
        lemma_group(r9, ",boxblur="@, ten);
        lemma_group(r9, ",boxblur="@ + ten, "[blurred"@);
    }
    let m = k + second + ";"@;
    assert(k + r13 + "];[main"@ == m + "[main"@) by {
        lemma_group(k + r13, "]"@ + ";"@, "[main"@);
        lemma_group(k + r13, "]"@, ";"@);
        lemma_group(k, r13, "]"@);
    }
    let t0 = "[main"@;
    lemma_group(m, t0, n);
    let t1 = t0 + n;
    lemma_group(m, t1, "][blurred"@);
    let t2 = t1 + "][blurred"@;
    lemma_group(m, t2, n);
    let t3 = t2 + n;
    lemma_group(m, t3, "]overlay="@);
    let t4 = t3 + "]overlay="@;
    lemma_group(m, t4, x);
    let t5 = t4 + x;
    lemma_group(m, t5, ":"@);
    let t6 = t5 + ":"@;
    lemma_group(m, t6, y);
    let t7 = t6 + y;
}

proof fn lemma_literals_split()
    ensures
        "];[blur"@ == "]"@ + ";"@ + "[blur"@,
        "];[main"@ == "]"@ + ";"@ + "[main"@,
        ",boxblur=10[blurred"@ == ",boxblur="@ + dec(10) + "[blurred"@,
{
    reveal_strlit("];[blur");
    reveal_strlit("];[main");
    reveal_strlit("]");
    reveal_strlit(";");
    reveal_strlit("[blur");
    reveal_strlit("[main");
    reveal_strlit(",boxblur=10[blurred");
    reveal_strlit(",boxblur=");
    reveal_strlit("[blurred");
    reveal_with_fuel(dec, 2);
    assert("];[blur"@ =~= "]"@ + ";"@ + "[blur"@);
    assert("];[main"@ =~= "]"@ + ";"@ + "[main"@);
    assert(dec(10) =~= seq!['1', '0']);
    assert(",boxblur=10[blurred"@ =~= ",boxblur="@ + dec(10) + "[blurred"@);
}

/// The chains of a list of stages.
spec fn chains_of(stages: Seq<Seq<char>>) -> Seq<Seq<char>>
    decreases stages.len(),
{
    if stages.len() == 0 {
        Seq::empty()
    } else {
        chains_of(stages.drop_last()) + pieces(stages.last(), ';')
    }
}

proof fn lemma_chains_of_graph(stages: Seq<Seq<char>>)
    requires
        stages.len() > 0,
    ensures
        pieces(joined(stages, ";"@), ';') == chains_of(stages),
    decreases stages.len(),
{
    assert(";"@ =~= seq![';']) by {
        reveal_strlit(";");
    }
    if stages.len() == 1 {
        assert(stages.drop_last().len() == 0);
        assert(chains_of(stages.drop_last()) =~= Seq::empty());
        assert(chains_of(stages) =~= pieces(stages[0], ';'));
    } else {
        lemma_chains_of_graph(stages.drop_last());
        law_split_in_parts(joined(stages.drop_last(), ";"@), stages.last(), ';');
    }
}

/// The chains of stages of which those from `f` up to `f + m` have three each.
proof fn lemma_chains_of_regions(stages: Seq<Seq<char>>, f: int, m: int)
    requires
        0 <= f,
        0 <= m,
        f + m <= stages.len(),
        forall|t: int| f <= t < f + m ==> pieces(#[trigger] stages[t], ';').len() == 3,
    ensures
        ({
            let before = chains_of(stages.take(f));
            let all = chains_of(stages.take(f + m));
            &&& all.len() == before.len() + 3 * m
            &&& forall|t: int|
                0 <= t < before.len() ==> #[trigger] all[t] == before[t]
            &&& forall|t: int|
                f <= t < f + m ==> {
                    let at = before.len() + 3 * (t - f);
                    let three = pieces(#[trigger] stages[t], ';');
                    all[at] == three[0] && all[at + 1] == three[1] && all[at + 2] == three[2]
                }
        }),
    decreases m,
{
    if m > 0 {
        lemma_chains_of_regions(stages, f, m - 1);
        let now = stages.take(f + m);
        assert(now.drop_last() =~= stages.take(f + m - 1));
        assert(now.last() == stages[f + m - 1]);
    }
}

proof fn lemma_label_is_chain(i: nat)
    ensures
        is_chain(chain_label(i)),
        is_chain("0:v"@),
        is_chain("v"@),
{
    reveal_strlit("cv");
    reveal_strlit("0:v");
    reveal_strlit("v");
    lemma_number_is_chain(i);
    lemma_chain_sum("cv"@, dec(i));
}

/// The chains of a graph do not depend on where in it three of them are read.
proof fn lemma_regions_move(
    chains: Seq<Seq<char>>,
    at: int,
    three: Seq<Seq<char>>,
    i: nat,
    region: BlurRegion,
    input: Seq<char>,
    output: Seq<char>,
)
    requires
        chains[at] == three[0],
        chains[at + 1] == three[1],
        chains[at + 2] == three[2],
        blurs_region(three, 0, i, region, input, output),
    ensures
        blurs_region(chains, at, i, region, input, output),
{
    reveal(blurs_region);
}

/// When picture and sound begin to fade out: so long before the end as the
/// fade lasts, or at the start.
spec fn fade_out_at(fade: FadeParams) -> Binary64 {
    at_least_zero(difference(fade.total_duration_secs, fade.fadeout))
}

/// When the sound begins to fade in: so long before the picture as the fade
/// lasts, or at once.
spec fn sound_at(fade: FadeParams) -> Binary64 {
    at_least_zero(difference(fade.black_hold, fade.fadein))
}

/// The fades of a picture: in, from when the black ends, and out.
spec fn picture_fades(fade: FadeParams) -> Seq<char> {
    ("fade=t=in:st="@ + time_text(fade.black_hold) + ":d="@ + time_text(fade.fadein)) + ","@ + (
    "fade=t=out:st="@ + time_text(fade_out_at(fade)) + ":d="@ + time_text(fade.fadeout))
}

/// What is done to the sound: nothing is heard until it is faded in, and it is
/// faded out with the picture.
spec fn sound_fades(fade: FadeParams) -> Seq<char> {
    let fades = ("afade=t=in:st="@ + time_text(sound_at(fade)) + ":d="@ + time_text(fade.fadein))
        + ","@ + ("afade=t=out:st="@ + time_text(fade_out_at(fade)) + ":d="@ + time_text(
        fade.fadeout,
    ));
    if is_positive(sound_at(fade)) {
        ("volume=enable='between(t,0,"@ + time_text(sound_at(fade)) + ")':volume=0"@) + ","@ + fades
    } else {
        fades
    }
}

proof fn lemma_join_two(a: Seq<char>, b: Seq<char>, sep: Seq<char>)
    ensures
        joined(seq![a, b], sep) == a + sep + b,
{
    assert(seq![a, b] =~= seq![a] + seq![b]);
    law_join_in_parts(seq![a], seq![b], sep);
    law_join_of_one(a, sep);
    law_join_of_one(b, sep);
}

proof fn lemma_picture_fades(fade: FadeParams)
    ensures
        joined(video_filters(fade), ","@) == picture_fades(fade),
        is_chain(picture_fades(fade)),
{
    let fs = video_filters(fade);
    assert(fs =~= seq![fs[0], fs[1]]);
    lemma_join_two(fs[0], fs[1], ","@);
    reveal_strlit("fade=t=in:st=");
    reveal_strlit("fade=t=out:st=");
    reveal_strlit(":d=");
    reveal_strlit(",");
    lemma_fade_is_chain("fade=t=in:st="@, fade.black_hold, fade.fadein);
    lemma_fade_is_chain("fade=t=out:st="@, fade_out_at(fade), fade.fadeout);
    lemma_chain_sum(fs[0], ","@);
    lemma_chain_sum(fs[0] + ","@, fs[1]);
}

proof fn lemma_fade_is_chain(name: Seq<char>, start: Binary64, length: Binary64)
    requires
        is_chain(name),
    ensures
        is_chain(name + time_text(start) + ":d="@ + time_text(length)),
{
    reveal_strlit(":d=");
    lemma_time_is_chain(start);
    lemma_time_is_chain(length);
    lemma_chain_sum(name, time_text(start));
    lemma_chain_sum(name + time_text(start), ":d="@);
    lemma_chain_sum(name + time_text(start) + ":d="@, time_text(length));
}

proof fn lemma_sound_fades(fade: FadeParams)
    ensures
        joined(audio_filters(fade), ","@) == sound_fades(fade),
        is_chain(sound_fades(fade)),
{
    let fs = audio_filters(fade);
    let begin = sound_at(fade);
    let silence = "volume=enable='between(t,0,"@ + time_text(begin) + ")':volume=0"@;
    let fade_in = fade_text("afade=t=in:st="@, begin, fade.fadein);
    let fade_out = fade_text("afade=t=out:st="@, fade_out_at(fade), fade.fadeout);
    reveal_strlit("afade=t=in:st=");
    reveal_strlit("afade=t=out:st=");
    reveal_strlit("volume=enable='between(t,0,");
    reveal_strlit(")':volume=0");
    reveal_strlit(",");
    lemma_time_is_chain(begin);
    lemma_fade_is_chain("afade=t=in:st="@, begin, fade.fadein);
    lemma_fade_is_chain("afade=t=out:st="@, fade_out_at(fade), fade.fadeout);
    lemma_chain_sum("volume=enable='between(t,0,"@, time_text(begin));
    lemma_chain_sum("volume=enable='between(t,0,"@ + time_text(begin), ")':volume=0"@);
    lemma_chain_sum(fade_in, ","@);
    lemma_chain_sum(fade_in + ","@, fade_out);
    lemma_chain_sum(silence, ","@);
    lemma_chain_sum(silence + ","@, fade_in + ","@ + fade_out);
    if is_positive(begin) {
        assert(fs =~= seq![silence, fade_in, fade_out]);
        assert(fs =~= seq![silence] + seq![fade_in, fade_out]);
        law_join_in_parts(seq![silence], seq![fade_in, fade_out], ","@);
        law_join_of_one(silence, ","@);
        lemma_join_two(fade_in, fade_out, ","@);
    } else {
        assert(fs =~= seq![fade_in, fade_out]);
        lemma_join_two(fade_in, fade_out, ","@);
    }
}

/// A graph without a title reads as chains: both videos one after the other,
/// then for each region the three that blur it, with its own numbers, from the
/// stream that the one before gives to the next, then the fades of the picture
/// and of the sound. There is nothing else in it.
pub proof fn law_graph_blurs_each_region_and_fades<'a>(
    blurs: Seq<BlurRegion>,
    fade: FadeParams<'a>,
)
    requires
        fade.title is None,
    ensures
        ({
            let chains = pieces(graph_text(blurs, fade), ';');
            let n = blurs.len() as int;
            let begin = at_least_zero(difference(fade.black_hold, fade.fadein));
            let end = at_least_zero(difference(fade.total_duration_secs, fade.fadeout));
            let heard = ("afade=t=in:st="@ + time_text(begin) + ":d="@ + time_text(fade.fadein))
                + ","@ + ("afade=t=out:st="@ + time_text(end) + ":d="@ + time_text(fade.fadeout));
            &&& chains.len() == 3 * n + 3
            &&& chains[0] == "[0:v][0:a][1:v][1:a]concat=n=2:v=1:a=1[cv0][araw]"@
            &&& forall|i: int|
                0 <= i < n ==> blurs_region(
                    chains,
                    3 * i + 1,
                    i as nat,
                    #[trigger] blurs[i],
                    "cv"@ + dec(i as nat),
                    "cv"@ + dec((i + 1) as nat),
                )
            &&& chains[3 * n + 1] == "["@ + ("cv"@ + dec(n as nat)) + "]"@ + (("fade=t=in:st="@
                + time_text(fade.black_hold) + ":d="@ + time_text(fade.fadein)) + ","@ + (
            "fade=t=out:st="@ + time_text(end) + ":d="@ + time_text(fade.fadeout))) + "["@ + "v"@
                + "]"@
            &&& chains[3 * n + 2] == "["@ + "araw"@ + "]"@ + (if is_positive(begin) {
                ("volume=enable='between(t,0,"@ + time_text(begin) + ")':volume=0"@) + ","@ + heard
            } else {
                heard
            }) + "["@ + "a"@ + "]"@
        }),
{
    lemma_graph_regions(blurs, fade);
    lemma_graph_ends(blurs, fade);
    assert forall|i: int| 0 <= i < blurs.len() implies blurs_region(
        pieces(graph_text(blurs, fade), ';'),
        3 * i + 1,
        i as nat,
        #[trigger] blurs[i],
        "cv"@ + dec(i as nat),
        "cv"@ + dec((i + 1) as nat),
    ) by {
        lemma_region_in_graph(blurs, fade, i);
    }
}

proof fn lemma_graph_begins<'a>(blurs: Seq<BlurRegion>, fade: FadeParams<'a>, t: int)
    requires
        fade.title is None,
        0 <= t < region_chains(blurs, fade).len(),
    ensures
        pieces(graph_text(blurs, fade), ';')[t] == region_chains(blurs, fade)[t],
{
    lemma_graph_ends(blurs, fade);
}

proof fn lemma_chains_of_region<'a>(blurs: Seq<BlurRegion>, fade: FadeParams<'a>, i: int)
    requires
        fade.title is None,
        0 <= i < blurs.len(),
    ensures
        ({
            let chains = pieces(graph_text(blurs, fade), ';');
            let three = pieces(graph_stages(blurs, fade)[i + 1], ';');
            &&& chains[3 * i + 1] == three[0]
            &&& chains[3 * i + 2] == three[1]
            &&& chains[3 * i + 3] == three[2]
        }),
{
    let t = i + 1;
    let three = pieces(graph_stages(blurs, fade)[t], ';');
    lemma_graph_regions(blurs, fade);
    assert(region_chains(blurs, fade)[3 * t - 2] == three[0]);
    lemma_graph_begins(blurs, fade, 3 * i + 1);
    lemma_graph_begins(blurs, fade, 3 * i + 2);
    lemma_graph_begins(blurs, fade, 3 * i + 3);
}

proof fn lemma_region_in_graph<'a>(blurs: Seq<BlurRegion>, fade: FadeParams<'a>, i: int)
    requires
        fade.title is None,
        0 <= i < blurs.len(),
    ensures
        blurs_region(
            pieces(graph_text(blurs, fade), ';'),
            3 * i + 1,
            i as nat,
            blurs[i],
            "cv"@ + dec(i as nat),
            "cv"@ + dec((i + 1) as nat),
        ),
{
    let three = pieces(graph_stages(blurs, fade)[i + 1], ';');
    lemma_chains_of_region(blurs, fade, i);
    lemma_graph_stage(blurs, fade, i + 1);
    lemma_regions_move(
        pieces(graph_text(blurs, fade), ';'),
        3 * i + 1,
        three,
        i as nat,
        blurs[i],
        "cv"@ + dec(i as nat),
        "cv"@ + dec((i + 1) as nat),
    );
}

proof fn lemma_graph_stage(blurs: Seq<BlurRegion>, fade: FadeParams, t: int)
    requires
        1 <= t < 1 + blurs.len(),
    ensures
        pieces(graph_stages(blurs, fade)[t], ';').len() == 3,
        blurs_region(
            pieces(graph_stages(blurs, fade)[t], ';'),
            0,
            (t - 1) as nat,
            blurs[t - 1],
            "cv"@ + dec((t - 1) as nat),
            "cv"@ + dec(t as nat),
        ),
{
    let k = (t - 1) as nat;
    lemma_label_is_chain(k);
    lemma_label_is_chain(t as nat);
    lemma_stage_chains(k, blurs[t - 1], chain_label(k), chain_label(t as nat));
    assert(graph_stages(blurs, fade)[t] == blur_stage(
        k,
        blurs[t - 1],
        chain_label(k),
        chain_label(t as nat),
    ));
}

/// The chains of a graph up to its fades.
#[verifier::opaque]
spec fn region_chains(blurs: Seq<BlurRegion>, fade: FadeParams) -> Seq<Seq<char>> {
    chains_of(graph_stages(blurs, fade).take(1 + blurs.len() as int))
}

proof fn lemma_graph_regions(blurs: Seq<BlurRegion>, fade: FadeParams)
    ensures
        ({
            let stages = graph_stages(blurs, fade);
            let chains = region_chains(blurs, fade);
            &&& chains.len() == 3 * blurs.len() + 1
            &&& chains[0] == "[0:v][0:a][1:v][1:a]concat=n=2:v=1:a=1[cv0][araw]"@
            &&& forall|t: int|
                1 <= t < 1 + blurs.len() ==> {
                    let three = pieces(#[trigger] stages[t], ';');
                    &&& chains[3 * t - 2] == three[0]
                    &&& chains[3 * t - 1] == three[1]
                    &&& chains[3 * t] == three[2]
                }
        }),
{
    reveal(region_chains);
    let stages = graph_stages(blurs, fade);
    let first = "[0:v][0:a][1:v][1:a]concat=n=2:v=1:a=1[cv0][araw]"@;
    assert(stages[0] == first);
    assert(stages.len() >= blurs.len() + 1);
    assert forall|t: int| 1 <= t < 1 + blurs.len() implies pieces(
        #[trigger] stages[t],
        ';',
    ).len() == 3 by {
        lemma_graph_stage(blurs, fade, t);
    }
    assert(is_chain(first)) by {
        reveal_strlit("[0:v][0:a][1:v][1:a]concat=n=2:v=1:a=1[cv0][araw]");
    }
    lemma_one_then_threes(stages, blurs.len() as int);
}

/// The chains of stages of which the first has one and the next `n` three each.
proof fn lemma_one_then_threes(stages: Seq<Seq<char>>, n: int)
    requires
        0 <= n < stages.len(),
        is_chain(stages[0]),
        forall|t: int| 1 <= t < 1 + n ==> pieces(#[trigger] stages[t], ';').len() == 3,
    ensures
        ({
            let chains = chains_of(stages.take(1 + n));
            &&& chains.len() == 3 * n + 1
            &&& chains[0] == stages[0]
            &&& forall|t: int|
                1 <= t < 1 + n ==> {
                    let three = pieces(#[trigger] stages[t], ';');
                    &&& chains[3 * t - 2] == three[0]
                    &&& chains[3 * t - 1] == three[1]
                    &&& chains[3 * t] == three[2]
                }
        }),
{
    lemma_chains_of_regions(stages, 1, n);
    let one_stage = stages.take(1);
    assert(one_stage.len() == 1 && one_stage.last() == stages[0]);
    assert(one_stage.drop_last().len() == 0);
    assert(chains_of(one_stage.drop_last()) =~= Seq::empty());
    law_one_piece(stages[0], ';');
    assert(chains_of(one_stage) =~= seq![stages[0]]);
}

proof fn lemma_graph_ends<'a>(blurs: Seq<BlurRegion>, fade: FadeParams<'a>)
    requires
        fade.title is None,
    ensures
        pieces(graph_text(blurs, fade), ';') == region_chains(blurs, fade).push(
            "["@ + ("cv"@ + dec(blurs.len())) + "]"@ + picture_fades(fade) + "["@ + "v"@ + "]"@,
        ).push("["@ + "araw"@ + "]"@ + sound_fades(fade) + "["@ + "a"@ + "]"@),
{
    reveal(region_chains);
    let stages = graph_stages(blurs, fade);
    let n = blurs.len() as int;
    let video = "["@ + ("cv"@ + dec(n as nat)) + "]"@ + picture_fades(fade) + "["@ + "v"@ + "]"@;
    let audio = "["@ + "araw"@ + "]"@ + sound_fades(fade) + "["@ + "a"@ + "]"@;
    lemma_chains_of_graph(stages);
    lemma_picture_fades(fade);
    lemma_sound_fades(fade);
    assert(stages.len() == n + 3);
    assert(stages[n + 1] == video);
    assert(stages[n + 2] == audio);
    lemma_label_is_chain(n as nat);
    lemma_enclosed_is_chain(chain_label(n as nat), picture_fades(fade), "v"@);
    assert(is_chain("araw"@) && is_chain("a"@)) by {
        reveal_strlit("araw");
        reveal_strlit("a");
    }
    lemma_enclosed_is_chain("araw"@, sound_fades(fade), "a"@);
    law_one_piece(video, ';');
    law_one_piece(audio, ';');
    let before = stages.drop_last();
    assert(before.drop_last() =~= stages.take(1 + n));
    assert(before.last() == video && stages.last() == audio);
    let mid = region_chains(blurs, fade);
    assert(chains_of(before) =~= mid.push(video));
    assert(chains_of(stages) =~= mid.push(video).push(audio));
}

proof fn lemma_enclosed_is_chain(input: Seq<char>, body: Seq<char>, output: Seq<char>)
    requires
        is_chain(input),
        is_chain(body),
        is_chain(output),
    ensures
        is_chain("["@ + input + "]"@ + body + "["@ + output + "]"@),
{
    reveal_strlit("[");
    reveal_strlit("]");
    lemma_chain_sum("["@, input);
    lemma_chain_sum("["@ + input, "]"@);
    lemma_chain_sum("["@ + input + "]"@, body);
    lemma_chain_sum("["@ + input + "]"@ + body, "["@);
    lemma_chain_sum("["@ + input + "]"@ + body + "["@, output);
    lemma_chain_sum("["@ + input + "]"@ + body + "["@ + output, "]"@);
}

/// A preview's graph reads as the three chains of each region, with its own
/// numbers, from the video itself to the stream that is shown, and nothing else.
pub proof fn law_preview_blurs_each_region(blurs: Seq<BlurRegion>)
    requires
        blurs.len() > 0,
    ensures
        ({
            let chains = pieces(preview_text(blurs), ';');
            let n = blurs.len();
            &&& chains.len() == 3 * n
            &&& forall|i: int|
                0 <= i < n ==> blurs_region(
                    chains,
                    3 * i,
                    i as nat,
                    #[trigger] blurs[i],
                    if i == 0 {
                        "0:v"@
                    } else {
                        "cv"@ + dec(i as nat)
                    },
                    if i + 1 == n {
                        "v"@
                    } else {
                        "cv"@ + dec((i + 1) as nat)
                    },
                )
        }),
{
    lemma_preview_chains(blurs);
    assert forall|i: int| 0 <= i < blurs.len() implies blurs_region(
        pieces(preview_text(blurs), ';'),
        3 * i,
        i as nat,
        #[trigger] blurs[i],
        if i == 0 {
            "0:v"@
        } else {
            "cv"@ + dec(i as nat)
        },
        if i + 1 == blurs.len() {
            "v"@
        } else {
            "cv"@ + dec((i + 1) as nat)
        },
    ) by {
        lemma_region_in_preview(blurs, i);
    }
}

proof fn lemma_preview_stage(blurs: Seq<BlurRegion>, t: int)
    requires
        0 <= t < blurs.len(),
    ensures
        pieces(preview_stages(blurs)[t], ';').len() == 3,
        blurs_region(
            pieces(preview_stages(blurs)[t], ';'),
            0,
            t as nat,
            blurs[t],
            preview_label(t as nat, blurs.len()),
            preview_label((t + 1) as nat, blurs.len()),
        ),
{
    lemma_label_is_chain(t as nat);
    lemma_label_is_chain((t + 1) as nat);
    lemma_stage_chains(
        t as nat,
        blurs[t],
        preview_label(t as nat, blurs.len()),
        preview_label((t + 1) as nat, blurs.len()),
    );
}

proof fn lemma_preview_chains(blurs: Seq<BlurRegion>)
    requires
        blurs.len() > 0,
    ensures
        ({
            let stages = preview_stages(blurs);
            let chains = pieces(preview_text(blurs), ';');
            &&& chains.len() == 3 * blurs.len()
            &&& forall|t: int|
                0 <= t < blurs.len() ==> {
                    let three = pieces(#[trigger] stages[t], ';');
                    &&& chains[3 * t] == three[0]
                    &&& chains[3 * t + 1] == three[1]
                    &&& chains[3 * t + 2] == three[2]
                }
        }),
{
    let stages = preview_stages(blurs);
    let n = blurs.len() as int;
    lemma_chains_of_graph(stages);
    assert forall|t: int| 0 <= t < n implies pieces(#[trigger] stages[t], ';').len() == 3 by {
        lemma_preview_stage(blurs, t);
    }
    lemma_chains_of_regions(stages, 0, n);
    assert(stages.take(0) =~= Seq::empty());
    assert(stages.take(n) =~= stages);
}

proof fn lemma_region_in_preview(blurs: Seq<BlurRegion>, i: int)
    requires
        0 <= i < blurs.len(),
    ensures
        blurs_region(
            pieces(preview_text(blurs), ';'),
            3 * i,
            i as nat,
            blurs[i],
            preview_label(i as nat, blurs.len()),
            preview_label((i + 1) as nat, blurs.len()),
        ),
{
    let three = pieces(preview_stages(blurs)[i], ';');
    lemma_preview_chains(blurs);
    lemma_preview_stage(blurs, i);
    lemma_regions_move(
        pieces(preview_text(blurs), ';'),
        3 * i,
        three,
        i as nat,
        blurs[i],
        preview_label(i as nat, blurs.len()),
        preview_label((i + 1) as nat, blurs.len()),
    );
}

/// What is shown in a preview is what is encoded: the two graphs crop, blur and
/// lay over each region alike.
pub proof fn law_preview_shows_what_is_encoded<'a>(
    blurs: Seq<BlurRegion>,
    fade: FadeParams<'a>,
    i: int,
)
    requires
        fade.title is None,
        0 <= i < blurs.len(),
    ensures
        pieces(preview_text(blurs), ';')[3 * i + 1] == pieces(graph_text(blurs, fade), ';')[3 * i
            + 2],
{
    reveal(blurs_region);
    law_graph_blurs_each_region_and_fades(blurs, fade);
    law_preview_blurs_each_region(blurs);
    let region = blurs[i];
}

/// Another region in place of one changes the three chains of that region, and
/// no other chain of the graph.
pub proof fn law_region_changes_its_own_chains<'a>(
    blurs: Seq<BlurRegion>,
    fade: FadeParams<'a>,
    i: int,
    region: BlurRegion,
    t: int,
)
    requires
        fade.title is None,
        0 <= i < blurs.len(),
        0 <= t < 3 * blurs.len() + 3,
    ensures
        !(3 * i + 1 <= t <= 3 * i + 3) ==> pieces(graph_text(blurs.update(i, region), fade), ';')[t]
            == pieces(graph_text(blurs, fade), ';')[t],
{
    reveal(blurs_region);
    let other = blurs.update(i, region);
    law_graph_blurs_each_region_and_fades(blurs, fade);
    law_graph_blurs_each_region_and_fades(other, fade);
    if 1 <= t <= 3 * blurs.len() {
        let k = (t - 1) / 3;
        assert(k != i ==> other[k] == blurs[k]);
    }
}

// ── The title ────────────────────────────────────────────────────────────

/// The lines of a title stand 64 apart, and as much of them stands above the
/// middle of the picture as below it: the first begins half their height above
/// it, and the last ends half their height below it.
pub proof fn law_title_lines_are_centred(i: int, count: int)
    requires
        0 <= i < count,
    ensures
        line_offset(i + 1, count) == line_offset(i, count) + 64,
        2 * line_offset(0, count) == 16 - 64 * count,
        line_offset(0, count) + (line_offset(count - 1, count) + 48) == 0,
{
    lemma_line_offset(i, count);
    lemma_line_offset(i + 1, count);
    lemma_line_offset(0, count);
    lemma_line_offset(count - 1, count);
}

proof fn lemma_line_offset(i: int, count: int)
    ensures
        line_offset(i, count) == 64 * i - 32 * count + 8,
{
    assert(i * (48 + 16) == 64 * i) by (nonlinear_arith);
    let height = count * 48 + (count - 1) * 16;
    assert(height == 2 * (32 * count - 8));
    assert(height / 2 == 32 * count - 8);
}

/// What stands for each line of a title: the line, without the white space
/// around it and escaped, in white, as far below the middle as its place among
/// the lines says, opaque while the picture is black and fading out while the
/// picture fades in.
pub proof fn law_each_line_of_the_title_is_drawn(title: Seq<char>, fade: FadeParams, i: int)
    requires
        0 <= i < pieces(title, '/').len(),
    ensures
        title_filters(title, fade).len() == pieces(title, '/').len(),
        ({
            let count = pieces(title, '/').len();
            let opacity = if is_positive(fade.black_hold) {
                "if(lt(t\\,"@ + time_text(fade.black_hold) + ")\\,1\\,max(0\\,1-(t-"@ + time_text(
                    fade.black_hold,
                ) + ")/"@ + time_text(fade.fadein) + "))"@
            } else {
                "max(0\\,1-t/"@ + time_text(fade.fadein) + ")"@
            };
            title_filters(title, fade)[i] == "drawtext=text='"@ + escaped(
                trimmed(pieces(title, '/')[i]),
            ) + "':x=(w-tw)/2:y=(h/2)+"@ + dec_signed(64 * i - 32 * count + 8)
                + "-(th/2):fontsize=48:fontcolor=white:alpha='"@ + opacity + "'"@
        }),
{
    lemma_line_offset(i, pieces(title, '/').len() as int);
}

/// A graph with a title is the graph without it, whose picture goes on to be
/// drawn on, with the lines of the title behind it.
pub proof fn law_titled_graph<'a>(blurs: Seq<BlurRegion>, fade: FadeParams<'a>)
    requires
        fade.title is Some,
    ensures
        ({
            let plain = graph_text(
                blurs,
                (FadeParams {
                    fadein: fade.fadein,
                    fadeout: fade.fadeout,
                    black_hold: fade.black_hold,
                    title: None,
                    total_duration_secs: fade.total_duration_secs,
                }),
            );
            graph_text(blurs, fade) == replaced(plain, "[v]"@, "[vfaded]"@) + ";"@ + ("[vfaded]"@
                + joined(title_filters(fade.title->0@, fade), ","@) + "[v]"@)
        }),
{
    law_title_adds_a_last_stage(blurs, fade);
    let body = joined(title_filters(fade.title->0@, fade), ","@);
    assert("["@ + "vfaded"@ + "]"@ =~= "[vfaded]"@ && "["@ + "v"@ + "]"@ =~= "[v]"@) by {
        reveal_strlit("[");
        reveal_strlit("]");
        reveal_strlit("v");
        reveal_strlit("vfaded");
        reveal_strlit("[v]");
        reveal_strlit("[vfaded]");
    }
    assert("["@ + "vfaded"@ + "]"@ + body + "["@ + "v"@ + "]"@ =~= ("["@ + "vfaded"@ + "]"@) + body
        + ("["@ + "v"@ + "]"@));
}

/// With or without a title, the picture fades in when the black is over and
/// fades out at the end.
pub proof fn law_picture_fades_in_after_the_hold<'a>(blurs: Seq<BlurRegion>, fade: FadeParams<'a>)
    ensures
        occurs(
            graph_text(blurs, fade),
            "fade=t=in:st="@ + time_text(fade.black_hold) + ":d="@ + time_text(fade.fadein) + ","@
                + ("fade=t=out:st="@ + time_text(
                at_least_zero(difference(fade.total_duration_secs, fade.fadeout)),
            ) + ":d="@ + time_text(fade.fadeout)),
        ),
{
    let stages = graph_stages(blurs, fade);
    let k = blurs.len() as int + 1;
    let faded = match fade.title {
        Some(_) => "vfaded"@,
        None => "v"@,
    };
    let body = joined(video_filters(fade), ","@);
    let fs = video_filters(fade);
    assert(fs =~= seq![fs[0], fs[1]]);
    lemma_join_two(fs[0], fs[1], ","@);
    let front = "["@ + chain_label(blurs.len()) + "]"@;
    let back = "["@ + faded + "]"@;
    assert(stages[k] == filter_chain(chain_label(blurs.len()), fs, faded));
    assert(front + body + "["@ + faded + "]"@ =~= front + body + back);
    assert(occurs(body, body)) by {
        law_occurs_inside(body, body);
        assert(Seq::<char>::empty() + body + Seq::<char>::empty() =~= body);
    }
    lemma_occurs_inside(front, body, back, body);
    lemma_occurs_in_join(stages, ";"@, k, body);
}

/// With or without a title, each region is blurred in the graph, with its own
/// numbers, between the stream of its place and the next.
pub proof fn law_each_region_is_in_the_graph<'a>(
    blurs: Seq<BlurRegion>,
    fade: FadeParams<'a>,
    i: int,
)
    requires
        0 <= i < blurs.len(),
    ensures
        ({
            let (n, next) = (dec(i as nat), dec((i + 1) as nat));
            let (x, y) = (dec(blurs[i].x as nat), dec(blurs[i].y as nat));
            let (w, h) = (dec(blurs[i].width as nat), dec(blurs[i].height as nat));
            occurs(
                graph_text(blurs, fade),
                "["@ + ("cv"@ + n) + "]"@ + ("split[main"@ + n + "][blur"@ + n + "];[blur"@ + n
                    + "]crop="@ + w + ":"@ + h + ":"@ + x + ":"@ + y + ",boxblur="@ + dec(10)
                    + "[blurred"@ + n + "];[main"@ + n + "][blurred"@ + n + "]overlay="@ + x + ":"@
                    + y) + ("["@ + ("cv"@ + next) + "]"@),
            )
        }),
{
    let stages = graph_stages(blurs, fade);
    let stage = blur_stage(
        i as nat,
        blurs[i],
        chain_label(i as nat),
        chain_label((i + 1) as nat),
    );
    assert(stages[i + 1] == stage);
    assert(occurs(stage, stage)) by {
        law_occurs_inside(stage, stage);
        assert(Seq::<char>::empty() + stage + Seq::<char>::empty() =~= stage);
    }
    lemma_occurs_in_join(stages, ";"@, i + 1, stage);
}

// ── Commands ─────────────────────────────────────────────────────────────

/// What the command for two videos says, in order: from where and how long the
/// first is read, the second, the graph with all that fades and draws, the
/// streams that are kept, the encoder with its settings, the sound's encoder,
/// and the output.
pub proof fn law_concat_command_in_order<'a, P>(p: ConcatParams<'a, P>)
    ensures
        p.args() == seq![ArgView::Text("-hide_banner"@), ArgView::Text("-y"@)] + (if is_positive(
            p.pre_seek_secs,
        ) {
            seq![ArgView::Text("-ss"@), ArgView::Text(time_text(p.pre_seek_secs))]
        } else {
            Seq::empty()
        }) + seq![
            ArgView::Text("-t"@),
            ArgView::Text(time_text(difference(p.cut_point_secs, p.pre_seek_secs))),
            ArgView::Text("-i"@),
        ] + seq![ArgView::File(*p.pre), ArgView::Text("-i"@), ArgView::File(*p.post)] + seq![
            ArgView::Text("-filter_complex"@),
            ArgView::Text(
                graph_text(
                    p.blurs@,
                    (FadeParams {
                        fadein: p.fadein,
                        fadeout: p.fadeout,
                        black_hold: p.black_hold,
                        title: p.title,
                        total_duration_secs: p.estimated_total_secs,
                    }),
                ),
            ),
            ArgView::Text("-map"@),
            ArgView::Text("[v]"@),
            ArgView::Text("-map"@),
            ArgView::Text("[a]"@),
        ] + (seq![ArgView::Text("-c:v"@), ArgView::Text(p.encoder.name@)] + Seq::new(
            p.encoder.quality_args@.len(),
            |j: int| ArgView::Text(p.encoder.quality_args@[j]@),
        )) + seq![
            ArgView::Text("-c:a"@),
            ArgView::Text("aac"@),
            ArgView::Text("-b:a"@),
            ArgView::Text("192k"@),
        ] + seq![ArgView::File(*p.output)],
{
    lemma_two_words::<P>("-hide_banner"@, "-y"@);
    lemma_two_words::<P>("-ss"@, time_text(p.pre_seek_secs));
    lemma_three_words::<P>(
        "-t"@,
        time_text(difference(p.cut_point_secs, p.pre_seek_secs)),
        "-i"@,
    );
    lemma_six_words::<P>(
        "-filter_complex"@,
        graph_text(p.blurs@, p.fade()),
        "-map"@,
        "[v]"@,
        "-map"@,
        "[a]"@,
    );
    lemma_encoder_words::<P>(*p.encoder);
    lemma_four_words::<P>("-c:a"@, "aac"@, "-b:a"@, "192k"@);
}

/// The graph of an encode fades the picture in when the black that was asked
/// for is over.
pub proof fn law_encode_fades_in_after_the_hold<'a, P>(p: ConcatParams<'a, P>)
    ensures
        p.args()[if is_positive(p.pre_seek_secs) {
            11int
        } else {
            9
        }] matches ArgView::Text(graph) && occurs(
            graph,
            "fade=t=in:st="@ + time_text(p.black_hold) + ":d="@ + time_text(p.fadein) + ","@ + (
            "fade=t=out:st="@ + time_text(
                at_least_zero(difference(p.estimated_total_secs, p.fadeout)),
            ) + ":d="@ + time_text(p.fadeout)),
        ),
{
    law_picture_fades_in_after_the_hold(p.blurs@, p.fade());
}

/// What the command for one video says, in order.
pub proof fn law_single_input_command_in_order<'a, P>(p: SingleInputParams<'a, P>)
    ensures
        ({
            let fade = FadeParams {
                fadein: p.fadein,
                fadeout: p.fadeout,
                black_hold: p.black_hold,
                title: p.title,
                total_duration_secs: p.estimated_total_secs,
            };
            let heard = is_positive(p.black_hold) || is_positive(p.fadein) || is_positive(p.fadeout)
                || is_positive(at_least_zero(difference(p.black_hold, p.fadein)));
            p.args() == seq![ArgView::Text("-hide_banner"@), ArgView::Text("-y"@)] + (
            if is_positive(p.input_seek_secs) {
                seq![ArgView::Text("-ss"@), ArgView::Text(time_text(p.input_seek_secs))]
            } else {
                Seq::empty()
            }) + seq![ArgView::Text("-i"@), ArgView::File(*p.input)] + seq![
                ArgView::Text("-filter_complex"@),
                ArgView::Text(joined(single_stages(p.blurs@, fade, p.output_height), ";"@)),
                ArgView::Text("-map"@),
                ArgView::Text("[v]"@),
                ArgView::Text("-map"@),
                ArgView::Text(
                    if heard {
                        "[a]"@
                    } else {
                        "0:a?"@
                    },
                ),
            ] + (seq![ArgView::Text("-c:v"@), ArgView::Text(p.encoder.name@)] + Seq::new(
                p.encoder.quality_args@.len(),
                |j: int| ArgView::Text(p.encoder.quality_args@[j]@),
            )) + seq![
                ArgView::Text("-c:a"@),
                ArgView::Text("aac"@),
                ArgView::Text("-b:a"@),
                ArgView::Text("192k"@),
            ] + seq![ArgView::File(*p.output)]
        }),
{
    lemma_two_words::<P>("-hide_banner"@, "-y"@);
    lemma_two_words::<P>("-ss"@, time_text(p.input_seek_secs));
    let graph = joined(single_stages(p.blurs@, p.fade(), p.output_height), ";"@);
    lemma_six_words::<P>("-filter_complex"@, graph, "-map"@, "[v]"@, "-map"@, "[a]"@);
    lemma_six_words::<P>("-filter_complex"@, graph, "-map"@, "[v]"@, "-map"@, "0:a?"@);
    lemma_encoder_words::<P>(*p.encoder);
    lemma_four_words::<P>("-c:a"@, "aac"@, "-b:a"@, "192k"@);
}

proof fn lemma_two_words<P>(a: Seq<char>, b: Seq<char>)
    ensures
        words::<P>(seq![a, b]) == seq![ArgView::<P>::Text(a), ArgView::<P>::Text(b)],
{
    assert(words::<P>(seq![a, b]) =~= seq![ArgView::<P>::Text(a), ArgView::<P>::Text(b)]);
}

proof fn lemma_three_words<P>(a: Seq<char>, b: Seq<char>, c: Seq<char>)
    ensures
        words::<P>(seq![a, b, c]) == seq![
            ArgView::<P>::Text(a),
            ArgView::<P>::Text(b),
            ArgView::<P>::Text(c),
        ],
{
    assert(words::<P>(seq![a, b, c]) =~= seq![
        ArgView::<P>::Text(a),
        ArgView::<P>::Text(b),
        ArgView::<P>::Text(c),
    ]);
}

proof fn lemma_four_words<P>(a: Seq<char>, b: Seq<char>, c: Seq<char>, d: Seq<char>)
    ensures
        words::<P>(seq![a, b, c, d]) == seq![
            ArgView::<P>::Text(a),
            ArgView::<P>::Text(b),
            ArgView::<P>::Text(c),
            ArgView::<P>::Text(d),
        ],
{
    assert(words::<P>(seq![a, b, c, d]) =~= seq![
        ArgView::<P>::Text(a),
        ArgView::<P>::Text(b),
        ArgView::<P>::Text(c),
        ArgView::<P>::Text(d),
    ]);
}

proof fn lemma_six_words<P>(
    a: Seq<char>,
    b: Seq<char>,
    c: Seq<char>,
    d: Seq<char>,
    e: Seq<char>,
    f: Seq<char>,
)
    ensures
        words::<P>(seq![a, b, c, d, e, f]) == seq![
            ArgView::<P>::Text(a),
            ArgView::<P>::Text(b),
            ArgView::<P>::Text(c),
            ArgView::<P>::Text(d),
            ArgView::<P>::Text(e),
            ArgView::<P>::Text(f),
        ],
{
    assert(words::<P>(seq![a, b, c, d, e, f]) =~= seq![
        ArgView::<P>::Text(a),
        ArgView::<P>::Text(b),
        ArgView::<P>::Text(c),
        ArgView::<P>::Text(d),
        ArgView::<P>::Text(e),
        ArgView::<P>::Text(f),
    ]);
}

proof fn lemma_encoder_words<P>(encoder: EncoderConfig)
    ensures
        encoder_args::<P>(encoder@.name, encoder@.quality_args) == seq![
            ArgView::<P>::Text("-c:v"@),
            ArgView::<P>::Text(encoder.name@),
        ] + Seq::new(
            encoder.quality_args@.len(),
            |j: int| ArgView::<P>::Text(encoder.quality_args@[j]@),
        ),
{
    let all = encoder_args::<P>(encoder@.name, encoder@.quality_args);
    let told = seq![ArgView::<P>::Text("-c:v"@), ArgView::<P>::Text(encoder.name@)] + Seq::new(
        encoder.quality_args@.len(),
        |j: int| ArgView::<P>::Text(encoder.quality_args@[j]@),
    );
    assert(all =~= told);
}

/// What the command for a preview says, in order, and what has an encode
/// report its progress.
pub proof fn law_preview_command_in_order<P>(
    video: P,
    blurs: Seq<BlurRegion>,
    timestamp: Binary64,
    output: P,
)
    ensures
        preview_args(video, blurs, timestamp, output) == seq![
            ArgView::Text("-hide_banner"@),
            ArgView::Text("-y"@),
            ArgView::Text("-ss"@),
            ArgView::Text(time_text(timestamp)),
            ArgView::Text("-i"@),
            ArgView::File(video),
            ArgView::Text("-filter_complex"@),
            ArgView::Text(preview_text(blurs)),
            ArgView::Text("-map"@),
            ArgView::Text("[v]"@),
            ArgView::Text("-frames:v"@),
            ArgView::Text("1"@),
            ArgView::Text("-q:v"@),
            ArgView::Text("2"@),
            ArgView::File(output),
        ],
        progress_args::<P>() == seq![
            ArgView::<P>::Text("-progress"@),
            ArgView::<P>::Text("pipe:2"@),
            ArgView::<P>::Text("-nostats"@),
        ],
{
}

/// What the command for raw audio says, in order: where to seek to, if not to
/// the start, what is read and for how long, as one channel of little-endian
/// floats at 16 000 Hz, to stdout.
pub proof fn law_pcm_command_in_order<P>(media: P, start: Binary64, duration: Binary64)
    ensures
        pcm_args(media, start, duration) == seq![
            ArgView::Text("-hide_banner"@),
            ArgView::Text("-loglevel"@),
            ArgView::Text("error"@),
        ] + (if is_positive(start) {
            seq![ArgView::Text("-ss"@), ArgView::Text(time_text(start))]
        } else {
            Seq::empty()
        }) + seq![
            ArgView::Text("-i"@),
            ArgView::File(media),
            ArgView::Text("-t"@),
            ArgView::Text(time_text(duration)),
            ArgView::Text("-vn"@),
            ArgView::Text("-ac"@),
            ArgView::Text("1"@),
            ArgView::Text("-ar"@),
            ArgView::Text("16000"@),
            ArgView::Text("-f"@),
            ArgView::Text("f32le"@),
            ArgView::Text("-"@),
        ],
{
    assert(dec(16000) =~= "16000"@) by {
        reveal_strlit("16000");
        reveal_with_fuel(dec, 5);
        assert(dec(16000) =~= seq!['1', '6', '0', '0', '0']);
    }
}

// ── One video ────────────────────────────────────────────────────────────

/// The graph for one video has a stage for each region, then one for the
/// picture, then one for the sound if anything is done to it. A region's stage
/// is the three chains that blur it, with its own numbers, from the video
/// itself or what the region before gives.
pub proof fn law_one_video_blurs_each_region(
    blurs: Seq<BlurRegion>,
    fade: FadeParams,
    height: Option<u32>,
    i: int,
)
    requires
        0 <= i < blurs.len(),
    ensures
        ({
            let chains = pieces(single_stages(blurs, fade, height)[i], ';');
            &&& chains.len() == 3
            &&& blurs_region(
                chains,
                0,
                i as nat,
                blurs[i],
                if i == 0 {
                    "0:v"@
                } else {
                    "cv"@ + dec(i as nat)
                },
                "cv"@ + dec((i + 1) as nat),
            )
        }),
{
    lemma_label_is_chain(i as nat);
    lemma_label_is_chain((i + 1) as nat);
    lemma_stage_chains(
        i as nat,
        blurs[i],
        single_label(i as nat),
        single_label((i + 1) as nat),
    );
    assert(single_stages(blurs, fade, height)[i] == blur_stage(
        i as nat,
        blurs[i],
        single_label(i as nat),
        single_label((i + 1) as nat),
    ));
}

/// What is done to the picture of one video, behind its regions: it fades in
/// if there is black before it or a time for that, it fades out if there is a
/// time for that, the title is drawn and the picture scaled if that is asked
/// for. Where nothing is done the picture goes through as it is.
pub proof fn law_one_video_picture<'a>(
    blurs: Seq<BlurRegion>,
    fade: FadeParams<'a>,
    height: Option<u32>,
)
    ensures
        ({
            let n = blurs.len();
            let last = if n == 0 {
                "0:v"@
            } else {
                "cv"@ + dec(n)
            };
            let appear: Seq<Seq<char>> = if is_positive(fade.black_hold) || is_positive(fade.fadein) {
                seq!["fade=t=in:st="@ + time_text(fade.black_hold) + ":d="@ + time_text(fade.fadein)]
            } else {
                Seq::empty()
            };
            let vanish: Seq<Seq<char>> = if is_positive(fade.fadeout) {
                seq![
                    "fade=t=out:st="@ + time_text(
                        at_least_zero(difference(fade.total_duration_secs, fade.fadeout)),
                    ) + ":d="@ + time_text(fade.fadeout),
                ]
            } else {
                Seq::empty()
            };
            let drawn: Seq<Seq<char>> = match fade.title {
                Some(title) => title_filters(title@, fade),
                None => Seq::empty(),
            };
            let sized: Seq<Seq<char>> = match height {
                Some(h) => seq!["scale=-2:"@ + dec(h as nat)],
                None => Seq::empty(),
            };
            let filters = appear + vanish + drawn + sized;
            single_stages(blurs, fade, height)[n as int] == "["@ + last + "]"@ + joined(
                if filters.len() == 0 {
                    seq!["null"@]
                } else {
                    filters
                },
                ","@,
            ) + "["@ + "v"@ + "]"@
        }),
{
}

/// What is done to the sound of one video: it is silent until it begins to
/// fade in, if that is not at once, and fades in and out with the picture.
/// Where nothing is done to it there is no stage for it.
pub proof fn law_one_video_sound<'a>(
    blurs: Seq<BlurRegion>,
    fade: FadeParams<'a>,
    height: Option<u32>,
)
    ensures
        ({
            let n = blurs.len();
            let begin = at_least_zero(difference(fade.black_hold, fade.fadein));
            let end = at_least_zero(difference(fade.total_duration_secs, fade.fadeout));
            let silent: Seq<Seq<char>> = if is_positive(begin) {
                seq!["volume=enable='between(t,0,"@ + time_text(begin) + ")':volume=0"@]
            } else {
                Seq::empty()
            };
            let appear: Seq<Seq<char>> = if is_positive(fade.black_hold) || is_positive(fade.fadein) {
                seq!["afade=t=in:st="@ + time_text(begin) + ":d="@ + time_text(fade.fadein)]
            } else {
                Seq::empty()
            };
            let vanish: Seq<Seq<char>> = if is_positive(fade.fadeout) {
                seq!["afade=t=out:st="@ + time_text(end) + ":d="@ + time_text(fade.fadeout)]
            } else {
                Seq::empty()
            };
            let filters = silent + appear + vanish;
            let stages = single_stages(blurs, fade, height);
            &&& filters.len() == 0 ==> stages.len() == n + 1
            &&& filters.len() > 0 ==> stages.len() == n + 2 && stages[n as int + 1] == "["@ + "0:a"@
                + "]"@ + joined(filters, ","@) + "["@ + "a"@ + "]"@
        }),
{
}

// ── Texts of filters, and progress ───────────────────────────────────────

/// What stands for one character of a title: itself, but for the four that have
/// a meaning in a filter.
pub proof fn law_escaped_characters(c: char)
    ensures
        c == '\\' ==> escaped(seq![c]) == seq!['\\', '\\', '\\', '\\'],
        c == '\'' ==> escaped(seq![c]) == seq!['\'', '\\', '\\', '\\', '\'', '\''],
        c == ':' ==> escaped(seq![c]) == seq!['\\', ':'],
        c == '%' ==> escaped(seq![c]) == seq!['\\', '%'],
        c != '\\' && c != '\'' && c != ':' && c != '%' ==> escaped(seq![c]) == seq![c],
        escaped(Seq::empty()) == Seq::<char>::empty(),
{
    let one = seq![c];
    assert(one.drop_last() =~= Seq::empty());
    assert(escaped(one.drop_last()) =~= Seq::empty());
    assert(escaped(one) =~= escaped_char(c));
    reveal_strlit("\\\\\\\\");
    reveal_strlit("'\\\\\\''");
    reveal_strlit("\\:");
    reveal_strlit("\\%");
    assert("\\\\\\\\"@ =~= seq!['\\', '\\', '\\', '\\']);
    assert("'\\\\\\''"@ =~= seq!['\'', '\\', '\\', '\\', '\'', '\'']);
    assert("\\:"@ =~= seq!['\\', ':']);
    assert("\\%"@ =~= seq!['\\', '%']);
}

/// A line of progress says how far the output is just where, without the white
/// space around it, it is `out_time_ms=` and a number; that number it says.
pub proof fn law_out_time_is_read(line: Seq<char>, rest: Seq<char>)
    ensures
        trimmed(line) == "out_time_ms="@ + rest ==> out_time(line) == read_number(
            rest,
            0xffff_ffff_ffff_ffff,
        ),
        trimmed(line).len() < 12 || trimmed(line).take(12) != "out_time_ms="@ ==> out_time(line)
            is None,
{
    let t = trimmed(line);
    reveal_strlit("out_time_ms=");
    assert("out_time_ms="@.len() == 12);
    if t == "out_time_ms="@ + rest {
        assert(t.skip(12) =~= rest);
        assert(t.subrange(0, 12) =~= "out_time_ms="@);
    }
    if t.len() >= 12 {
        assert(t.take(12) =~= t.subrange(0, 12));
    }
}

/// A line is a progress report just where it begins with one of these words.
pub proof fn law_progress_reports(line: Seq<char>)
    ensures
        is_progress(line) <==> exists|word: Seq<char>|
            #[trigger] word.is_prefix_of(line) && seq![
                "frame="@,
                "fps="@,
                "out_time"@,
                "progress="@,
                "speed="@,
                "bitrate="@,
                "total_size="@,
                "dup_frames="@,
                "drop_frames="@,
            ].contains(word),
{
    let words = seq![
        "frame="@,
        "fps="@,
        "out_time"@,
        "progress="@,
        "speed="@,
        "bitrate="@,
        "total_size="@,
        "dup_frames="@,
        "drop_frames="@,
    ];
    if is_progress(line) {
        let k = if words[0].is_prefix_of(line) {
            0int
        } else if words[1].is_prefix_of(line) {
            1
        } else if words[2].is_prefix_of(line) {
            2
        } else if words[3].is_prefix_of(line) {
            3
        } else if words[4].is_prefix_of(line) {
            4
        } else if words[5].is_prefix_of(line) {
            5
        } else if words[6].is_prefix_of(line) {
            6
        } else if words[7].is_prefix_of(line) {
            7
        } else {
            8
        };
        assert(words[k].is_prefix_of(line) && words.contains(words[k]));
    }
}

/// A failure is told line by line: a progress report is left out, any other
/// line is kept, in its place.
pub proof fn law_failure_is_told_line_by_line(lines: Seq<Seq<char>>, line: Seq<char>)
    ensures
        error_lines(Seq::empty()) == Seq::<Seq<char>>::empty(),
        is_progress(line) ==> error_lines(lines.push(line)) == error_lines(lines),
        !is_progress(line) ==> error_lines(lines.push(line)) == error_lines(lines).push(line),
{
    reveal(Seq::filter);
    assert(lines.push(line).drop_last() =~= lines);
    assert(lines.push(line).last() == line);
}

/// The percentage is the whole part of a hundred times the time of the output
/// over the time of all of it, and 100 from there on.
pub proof fn law_percent_is_the_whole_part(out_us: nat, total: Binary64)
    requires
        is_positive(total),
    ensures
        ({
            let seconds = quotient(whole(out_us), whole(1_000_000));
            let done = hundredfold(quotient(seconds, total));
            let p = percent(out_us, total);
            &&& less(done, whole(100)) ==> p * one() <= done.size() < (p + 1) * one()
            &&& !less(done, whole(100)) ==> p == 100
        }),
{
    law_powers_of_two(0, 1074);
    let size = share(out_us, total).size();
    lemma_fundamental_div_mod(size as int, one() as int);
    let p = size / one();
    assert(p * one() == one() * p && (p + 1) * one() == one() * p + one()) by (nonlinear_arith);
}

/// The percentage never goes back: more output is no lower percentage.
pub proof fn law_percent_grows(a: nat, b: nat, total: Binary64)
    requires
        a <= b <= u64::MAX,
        is_positive(total),
        total.is_finite(),
    ensures
        percent(a, total) <= percent(b, total),
{
    let million = whole(1_000_000);
    law_whole_grows(a, b);
    law_whole_is_finite(b);
    law_whole_is_exact(1_000_000);
    law_whole_is_not_negative(1_000_000);
    law_powers_of_two(0, 1074);
    law_positive_is_above_zero(million);
    law_quotient_grows(whole(a), whole(b), million);
    let (x, y) = (quotient(whole(a), million), quotient(whole(b), million));
    law_quotient_shrinks(whole(b), million);
    law_quotient_grows(x, y, total);
    let (p, q) = (quotient(x, total), quotient(y, total));
    law_hundredfold_grows(p, q);
    let (s, t) = (share(a, total), share(b, total));
    law_percent_in_range(a, total);
    if less(t, whole(100)) {
        law_below_whole(t, 100);
        law_order_is_that_of_values(s, t);
        assert(less(s, whole(100)));
        law_below_whole(s, 100);
        assert(s.size() <= t.size());
        assert(s.size() / one() <= t.size() / one()) by (nonlinear_arith)
            requires
                s.size() <= t.size(),
                one() > 0,
        ;
    }
}

// ── Regions apart ────────────────────────────────────────────────────────

proof fn lemma_no_colon_sum(a: Seq<char>, b: Seq<char>)
    requires
        !a.contains(':'),
        !b.contains(':'),
    ensures
        !(a + b).contains(':'),
{
    let s = a + b;
    if s.contains(':') {
        let i = choose|i: int| 0 <= i < s.len() && s[i] == ':';
        if i < a.len() {
            assert(a[i] == ':');
        } else {
            assert(b[i - a.len()] == ':');
        }
    }
}

proof fn lemma_no_colon_in_number(n: nat)
    ensures
        !dec(n).contains(':'),
{
    lemma_dec(n);
    if dec(n).contains(':') {
        let i = choose|i: int| 0 <= i < dec(n).len() && dec(n)[i] == ':';
        assert(is_digit(dec(n)[i]));
    }
}

proof fn lemma_join_four(a: Seq<char>, b: Seq<char>, c: Seq<char>, d: Seq<char>, sep: Seq<char>)
    ensures
        joined(seq![a, b, c, d], sep) == a + sep + b + sep + c + sep + d,
{
    lemma_join_two(a, b, sep);
    assert(seq![a, b, c] =~= seq![a, b] + seq![c]);
    law_join_in_parts(seq![a, b], seq![c], sep);
    law_join_of_one(c, sep);
    assert(seq![a, b, c, d] =~= seq![a, b, c] + seq![d]);
    law_join_in_parts(seq![a, b, c], seq![d], sep);
    law_join_of_one(d, sep);
}

/// A crop is split at its colons into what holds the width, the height, how far
/// it is from the left, and what holds how far it is from the top.
proof fn lemma_crop_in_pieces(front: Seq<char>, back: Seq<char>, region: BlurRegion)
    requires
        !front.contains(':'),
        !back.contains(':'),
    ensures
        ({
            let (x, y) = (dec(region.x as nat), dec(region.y as nat));
            let (w, h) = (dec(region.width as nat), dec(region.height as nat));
            pieces(front + w + ":"@ + h + ":"@ + x + ":"@ + y + back, ':') == seq![
                front + w,
                h,
                x,
                y + back,
            ]
        }),
{
    let (x, y) = (dec(region.x as nat), dec(region.y as nat));
    let (w, h) = (dec(region.width as nat), dec(region.height as nat));
    assert(":"@ =~= seq![':']) by {
        reveal_strlit(":");
    }
    lemma_no_colon_in_number(region.x as nat);
    lemma_no_colon_in_number(region.y as nat);
    lemma_no_colon_in_number(region.width as nat);
    lemma_no_colon_in_number(region.height as nat);
    lemma_no_colon_sum(front, w);
    lemma_no_colon_sum(y, back);
    let parts = seq![front + w, h, x, y + back];
    lemma_join_four(front + w, h, x, y + back, ":"@);
    lemma_group(front + w + ":"@ + h + ":"@ + x + ":"@, y, back);
    law_split_of_join(parts, ':');
}

proof fn lemma_same_ends(front: Seq<char>, a: Seq<char>, b: Seq<char>, back: Seq<char>)
    ensures
        front + a == front + b ==> a == b,
        a + back == b + back ==> a == b,
{
    if front + a == front + b {
        assert(a =~= (front + a).skip(front.len() as int));
        assert(b =~= (front + b).skip(front.len() as int));
    }
    if a + back == b + back {
        assert((a + back).len() == (b + back).len());
        assert(a =~= (a + back).take(a.len() as int));
        assert(b =~= (b + back).take(a.len() as int));
    }
}

proof fn lemma_crops_differ(front: Seq<char>, back: Seq<char>, a: BlurRegion, b: BlurRegion)
    requires
        !front.contains(':'),
        !back.contains(':'),
        front + dec(a.width as nat) + ":"@ + dec(a.height as nat) + ":"@ + dec(a.x as nat) + ":"@
            + dec(a.y as nat) + back == front + dec(b.width as nat) + ":"@ + dec(b.height as nat)
            + ":"@ + dec(b.x as nat) + ":"@ + dec(b.y as nat) + back,
    ensures
        a == b,
{
    lemma_crop_in_pieces(front, back, a);
    lemma_crop_in_pieces(front, back, b);
    let p = seq![
        front + dec(a.width as nat),
        dec(a.height as nat),
        dec(a.x as nat),
        dec(a.y as nat) + back,
    ];
    let q = seq![
        front + dec(b.width as nat),
        dec(b.height as nat),
        dec(b.x as nat),
        dec(b.y as nat) + back,
    ];
    assert(p == q);
    assert(p[0] == q[0] && p[1] == q[1] && p[2] == q[2] && p[3] == q[3]);
    lemma_same_ends(front, dec(a.width as nat), dec(b.width as nat), back);
    lemma_same_ends(front, dec(a.y as nat), dec(b.y as nat), back);
    law_decimal_injective(a.width as nat, b.width as nat);
    law_decimal_injective(a.height as nat, b.height as nat);
    law_decimal_injective(a.x as nat, b.x as nat);
    law_decimal_injective(a.y as nat, b.y as nat);
}

/// The three chains of a region, in the graph of an encode and in that of a
/// preview: the stream is split, one copy is cropped to the region and blurred,
/// and laid over the other where it was.
pub proof fn law_chains_of_a_region<'a>(blurs: Seq<BlurRegion>, fade: FadeParams<'a>, i: int)
    requires
        fade.title is None,
        0 <= i < blurs.len(),
    ensures
        ({
            let encoded = pieces(graph_text(blurs, fade), ';');
            let shown = pieces(preview_text(blurs), ';');
            let (n, next) = (dec(i as nat), dec((i + 1) as nat));
            let (x, y) = (dec(blurs[i].x as nat), dec(blurs[i].y as nat));
            let (w, h) = (dec(blurs[i].width as nat), dec(blurs[i].height as nat));
            let split = "split[main"@ + n + "][blur"@ + n + "]"@;
            let crop = "[blur"@ + n + "]crop="@ + w + ":"@ + h + ":"@ + x + ":"@ + y
                + ",boxblur=10[blurred"@ + n + "]"@;
            let overlay = "[main"@ + n + "][blurred"@ + n + "]overlay="@ + x + ":"@ + y;
            &&& encoded[3 * i + 1] == "["@ + ("cv"@ + n) + "]"@ + split
            &&& encoded[3 * i + 2] == crop
            &&& encoded[3 * i + 3] == overlay + ("["@ + ("cv"@ + next) + "]"@)
            &&& shown[3 * i] == "["@ + (if i == 0 {
                "0:v"@
            } else {
                "cv"@ + n
            }) + "]"@ + split
            &&& shown[3 * i + 1] == crop
            &&& shown[3 * i + 2] == overlay + ("["@ + (if i + 1 == blurs.len() {
                "v"@
            } else {
                "cv"@ + next
            }) + "]"@)
        }),
{
    lemma_region_in_graph(blurs, fade, i);
    lemma_region_in_preview(blurs, i);
    reveal(blurs_region);
}

/// How the picture is cropped to a region in a graph.
proof fn lemma_crop_in_graph<'a>(blurs: Seq<BlurRegion>, fade: FadeParams<'a>, i: int)
    requires
        fade.title is None,
        0 <= i < blurs.len(),
    ensures
        ({
            let n = dec(i as nat);
            let r = blurs[i];
            pieces(graph_text(blurs, fade), ';')[3 * i + 2] == ("[blur"@ + n + "]crop="@) + dec(
                r.width as nat,
            ) + ":"@ + dec(r.height as nat) + ":"@ + dec(r.x as nat) + ":"@ + dec(r.y as nat) + (
            ",boxblur=10[blurred"@ + n + "]"@)
        }),
{
    reveal(blurs_region);
    let n = dec(i as nat);
    lemma_region_in_graph(blurs, fade, i);
    lemma_crop_chain("[blur"@ + n + "]crop="@, blurs[i], n);
}

proof fn lemma_no_colon_around(i: nat)
    ensures
        !("[blur"@ + dec(i) + "]crop="@).contains(':'),
        !(",boxblur=10[blurred"@ + dec(i) + "]"@).contains(':'),
{
    let n = dec(i);
    lemma_no_colon_in_number(i);
    reveal_strlit("[blur");
    reveal_strlit("]crop=");
    reveal_strlit(",boxblur=10[blurred");
    reveal_strlit("]");
    lemma_no_colon_sum("[blur"@, n);
    lemma_no_colon_sum("[blur"@ + n, "]crop="@);
    lemma_no_colon_sum(",boxblur=10[blurred"@, n);
    lemma_no_colon_sum(",boxblur=10[blurred"@ + n, "]"@);
}

/// Two graphs whose regions differ in a place crop the picture otherwise there.
pub proof fn law_other_region_is_cropped_otherwise<'a>(
    blurs: Seq<BlurRegion>,
    fade: FadeParams<'a>,
    others: Seq<BlurRegion>,
    other_fade: FadeParams<'a>,
    i: int,
)
    requires
        fade.title is None,
        other_fade.title is None,
        0 <= i < blurs.len(),
        0 <= i < others.len(),
        blurs[i] != others[i],
    ensures
        pieces(graph_text(blurs, fade), ';')[3 * i + 2] != pieces(
            graph_text(others, other_fade),
            ';',
        )[3 * i + 2],
{
    let n = dec(i as nat);
    lemma_crop_in_graph(blurs, fade, i);
    lemma_crop_in_graph(others, other_fade, i);
    lemma_no_colon_around(i as nat);
    if pieces(graph_text(blurs, fade), ';')[3 * i + 2] == pieces(
        graph_text(others, other_fade),
        ';',
    )[3 * i + 2] {
        lemma_crops_differ(
            "[blur"@ + n + "]crop="@,
            ",boxblur=10[blurred"@ + n + "]"@,
            blurs[i],
            others[i],
        );
    }
}

proof fn lemma_crop_chain(front: Seq<char>, r: BlurRegion, n: Seq<char>)
    ensures
        front + dec(r.width as nat) + ":"@ + dec(r.height as nat) + ":"@ + dec(r.x as nat) + ":"@
            + dec(r.y as nat) + ",boxblur=10[blurred"@ + n + "]"@ == front + dec(r.width as nat)
            + ":"@ + dec(r.height as nat) + ":"@ + dec(r.x as nat) + ":"@ + dec(r.y as nat) + (
        ",boxblur=10[blurred"@ + n + "]"@),
{
    let head = front + dec(r.width as nat) + ":"@ + dec(r.height as nat) + ":"@ + dec(r.x as nat)
        + ":"@ + dec(r.y as nat);
    lemma_group(head, ",boxblur=10[blurred"@, n);
    lemma_group(head, ",boxblur=10[blurred"@ + n, "]"@);
}

} // verus!
