//! The cut point: where the start of one recording stands in the end of another.

use vstd::prelude::*;

use crate::binary64::{
    at_least_zero, difference, is_near, law_at_least_zero, law_difference_is_near,
    law_negative_difference, law_order_is_that_of_values, law_powers_of_two, law_quotient_grows,
    law_quotient_is_near, law_quotient_is_nearest, law_quotient_shrinks, law_small_step_is_near,
    law_sum_keeps_bounds, law_sum_keeps_sign, law_whole_grows, law_whole_is_exact,
    law_whole_is_finite, law_whole_is_nearest, law_whole_is_not_negative, law_zero, less, one,
    quotient, size_of, sum, two_to, whole, zero, Binary64, FULL, HALF,
};
use crate::binary64::rounding::{lemma_eight_more, lemma_two_constants};
use crate::error::LimitcutError;
use crate::ffmpeg::audio::CORRELATION_SAMPLE_RATE;
use crate::overlap::score::{rank, rank_of_bits};

verus! {

/// How many seconds of audio from the *end* of the pre-video to search.
///
/// The overlap is expected to be at most a few seconds, but we use 6 s to
/// give ample margin. Larger values increase CPU time linearly.
pub const SEARCH_WINDOW_SECS: u32 = 6;

/// The bits of one half: how many seconds of audio from the *start* of the
/// post-video to use as the correlation needle. Must be shorter than the actual
/// overlap.
pub const NEEDLE_DURATION_BITS: u64 = 0x3fe0_0000_0000_0000;

/// The bits of 0.3: the minimum normalised cross-correlation score accepted as
/// a valid match. Below this threshold the audio is considered non-overlapping
/// or silent.
pub const MIN_SCORE_BITS: u64 = 0x3fd3_3333_3333_3333;

/// The bits of minus infinity, the score where no score is a number.
pub const NO_SCORE_BITS: u64 = 0xfff0_0000_0000_0000;

/// Minimum normalised cross-correlation score accepted as a valid match.
pub fn min_score() -> (r: Binary64)
    ensures
        r.bits == MIN_SCORE_BITS,
{
    Binary64 { bits: MIN_SCORE_BITS }
}

/// The result of a successful overlap detection.
#[derive(Debug, Clone, Copy, PartialEq, Eq, Structural)]
pub struct CorrelationResult {
    /// Time at which to cut the pre-video.
    ///
    /// The pre-video should be trimmed to exactly this duration, then the
    /// post-video appended from its beginning to produce a seamless output.
    pub cut_point_secs: Binary64,
    /// Normalised cross-correlation score (higher = more confident).
    pub score: Binary64,
    /// Duration of the pre-video.
    pub pre_duration_secs: Binary64,
}

// ── The best offset ──────────────────────────────────────────────────────

/// Whether `k` is the first of the positions with the highest score.
pub open spec fn is_first_best(scores: Seq<Binary64>, k: int) -> bool {
    &&& 0 <= k < scores.len()
    &&& forall|j: int|
        0 <= j < scores.len() ==> rank((#[trigger] scores[j]).bits) <= rank(scores[k].bits)
    &&& forall|j: int| 0 <= j < k ==> rank((#[trigger] scores[j]).bits) < rank(scores[k].bits)
}

/// The best score, where it stands at `k`: minus infinity where no score is a
/// number.
pub open spec fn best_score(scores: Seq<Binary64>, k: int) -> Binary64 {
    if rank(scores[k].bits) == i64::MIN {
        Binary64 { bits: NO_SCORE_BITS }
    } else {
        scores[k]
    }
}

/// Whether a score is below [`MIN_SCORE_BITS`].
pub open spec fn is_too_low(score: Binary64) -> bool {
    rank(score.bits) < MIN_SCORE_BITS
}

/// What sliding a needle over a haystack comes to: the sizes, whether the
/// needle has no energy, and the score at each offset.
#[derive(Debug)]
pub struct Sliding {
    pub haystack_len: usize,
    pub needle_len: usize,
    pub silent: bool,
    pub scores: Vec<Binary64>,
}

impl Sliding {
    /// There is a score for every offset at which the needle fits.
    pub open spec fn wf(self) -> bool {
        self.needle_len <= self.haystack_len && !self.silent ==> self.scores@.len()
            == self.haystack_len - self.needle_len + 1
    }
}

/// The offset in the haystack where the needle best aligns, and the score there.
///
/// # Errors
///
/// - [`LimitcutError::NeedleTooLong`] if the needle is longer than the haystack.
/// - [`LimitcutError::SilentAudio`] if the needle has no energy.
/// - [`LimitcutError::CorrelationScoreTooLow`] if the best score is below [`min_score`].
pub fn cross_correlate(s: &Sliding) -> (r: Result<(usize, Binary64), LimitcutError>)
    requires
        s.wf(),
    ensures
        match r {
            Err(LimitcutError::NeedleTooLong { needle_len, haystack_len }) => {
                &&& s.needle_len > s.haystack_len
                &&& needle_len == s.needle_len
                &&& haystack_len == s.haystack_len
            },
            Err(LimitcutError::SilentAudio) => s.needle_len <= s.haystack_len && s.silent,
            Err(LimitcutError::CorrelationScoreTooLow { score, threshold }) => {
                &&& s.needle_len <= s.haystack_len && !s.silent
                &&& exists|k: int|
                    #![trigger s.scores@[k]]
                    is_first_best(s.scores@, k) && score == best_score(s.scores@, k)
                        && is_too_low(s.scores@[k])
                &&& threshold.bits == MIN_SCORE_BITS
            },
            Err(_) => false,
            Ok((offset, score)) => {
                &&& s.needle_len <= s.haystack_len && !s.silent
                &&& is_first_best(s.scores@, offset as int)
                &&& score == s.scores@[offset as int]
                &&& !is_too_low(score)
            },
        },
{
    if s.needle_len > s.haystack_len {
        return Err(
            LimitcutError::NeedleTooLong {
                needle_len: s.needle_len,
                haystack_len: s.haystack_len,
            },
        );
    }
    if s.silent {
        return Err(LimitcutError::SilentAudio);
    }
    let scores = &s.scores;
    let mut best: usize = 0;
    let mut highest = rank_of_bits(scores[0].bits);
    let mut i: usize = 1;
    while i < scores.len()
        invariant
            0 <= best < i <= scores.len(),
            highest == rank(scores@[best as int].bits),
            forall|j: int| 0 <= j < i ==> rank((#[trigger] scores@[j]).bits) <= highest,
            forall|j: int| 0 <= j < best ==> rank((#[trigger] scores@[j]).bits) < highest,
        decreases scores.len() - i,
    {
        let next = rank_of_bits(scores[i].bits);
        if next > highest {
            best = i;
            highest = next;
        }
        i += 1;
    }
    assert(is_first_best(s.scores@, best as int));
    if highest < MIN_SCORE_BITS as i64 {
        let score = if highest == i64::MIN {
            Binary64 { bits: NO_SCORE_BITS }
        } else {
            scores[best]
        };
        return Err(LimitcutError::CorrelationScoreTooLow { score, threshold: min_score() });
    }
    Ok((best, scores[best]))
}

// ── The cut point ────────────────────────────────────────────────────────

/// Where the searched end of the pre-video begins.
pub open spec fn tail_start_of(pre_duration: Binary64) -> Binary64 {
    at_least_zero(difference(pre_duration, whole(SEARCH_WINDOW_SECS as nat)))
}

/// The start and the length of the end of the pre-video that is searched.
pub fn search_window(pre_duration: Binary64) -> (r: (Binary64, Binary64))
    ensures
        r.0 == tail_start_of(pre_duration),
        r.1 == difference(pre_duration, tail_start_of(pre_duration)),
{
    let tail_start = pre_duration.minus(Binary64::whole(SEARCH_WINDOW_SECS as u64)).or_zero();
    (tail_start, pre_duration.minus(tail_start))
}

/// The length of the start of the post-video that is looked for.
pub fn needle_duration() -> (r: Binary64)
    ensures
        r.bits == NEEDLE_DURATION_BITS,
{
    Binary64 { bits: NEEDLE_DURATION_BITS }
}

/// How long `samples` samples last.
pub open spec fn samples_last(samples: nat) -> Binary64 {
    quotient(whole(samples), whole(CORRELATION_SAMPLE_RATE as nat))
}

/// The time that lies `offset` samples behind the start of the window.
pub open spec fn cut_point_at(tail_start: Binary64, offset: nat) -> Binary64 {
    sum(tail_start, samples_last(offset))
}

/// The time that lies `offset_samples` behind `tail_start`.
pub fn cut_point(tail_start: Binary64, offset_samples: usize) -> (r: Binary64)
    ensures
        r == cut_point_at(tail_start, offset_samples as nat),
{
    let behind = Binary64::whole(offset_samples as u64).divide(
        Binary64::whole(CORRELATION_SAMPLE_RATE as u64),
    );
    tail_start.plus(behind)
}

/// The end of the pre-video must have sound.
pub fn require_pre_audio(samples: usize) -> (r: Result<(), LimitcutError>)
    ensures
        match r {
            Ok(_) => samples > 0,
            Err(LimitcutError::EmptyPreAudio) => samples == 0,
            Err(_) => false,
        },
{
    if samples == 0 {
        Err(LimitcutError::EmptyPreAudio)
    } else {
        Ok(())
    }
}

/// The start of the post-video must have sound.
pub fn require_post_audio(samples: usize) -> (r: Result<(), LimitcutError>)
    ensures
        match r {
            Ok(_) => samples > 0,
            Err(LimitcutError::EmptyPostAudio) => samples == 0,
            Err(_) => false,
        },
{
    if samples == 0 {
        Err(LimitcutError::EmptyPostAudio)
    } else {
        Ok(())
    }
}

/// Whether a cut point does not lie within the pre-video.
pub open spec fn is_out_of_range(cut: Binary64, pre_duration: Binary64) -> bool {
    less(cut, zero()) || less(pre_duration, cut)
}

/// Whether a search that found `score` at `offset` gives this result.
pub open spec fn is_cut_point(
    r: Result<CorrelationResult, LimitcutError>,
    pre_duration: Binary64,
    offset: nat,
    score: Binary64,
) -> bool {
    let cut = cut_point_at(tail_start_of(pre_duration), offset);
    match r {
        Ok(found) => {
            &&& !is_out_of_range(cut, pre_duration)
            &&& found.cut_point_secs == cut
            &&& found.score == score
            &&& found.pre_duration_secs == pre_duration
        },
        Err(LimitcutError::CutPointOutOfRange { cut: c, duration }) => {
            &&& is_out_of_range(cut, pre_duration)
            &&& c == cut
            &&& duration == pre_duration
        },
        Err(_) => false,
    }
}

/// Detect the overlap between pre-video and post-video and return the cut point.
///
/// # Algorithm
///
/// 1. The haystack is the **last [`SEARCH_WINDOW_SECS`]** of the pre-video audio.
/// 2. The needle is the **first [`needle_duration`]** of the post-video audio.
/// 3. The needle was slid over the haystack; `sliding` holds what came of it.
/// 4. The best-matching offset + the haystack start time gives the cut point.
///
/// # Errors
///
/// Those of [`cross_correlate`] as they come; [`LimitcutError::EmptyPreAudio`]
/// and [`LimitcutError::EmptyPostAudio`] where there is no sound to compare;
/// [`LimitcutError::CutPointOutOfRange`] where the cut point does not lie
/// within the pre-video.
pub fn find_cut_point(pre_duration: Binary64, sliding: &Sliding) -> (r: Result<
    CorrelationResult,
    LimitcutError,
>)
    requires
        sliding.wf(),
    ensures
        r matches Err(LimitcutError::EmptyPreAudio) <==> sliding.haystack_len == 0,
        r matches Err(LimitcutError::EmptyPostAudio) <==> sliding.haystack_len > 0
            && sliding.needle_len == 0,
        sliding.haystack_len > 0 && sliding.needle_len > 0 ==> match r {
            Err(LimitcutError::NeedleTooLong { needle_len, haystack_len }) => {
                &&& sliding.needle_len > sliding.haystack_len
                &&& needle_len == sliding.needle_len
                &&& haystack_len == sliding.haystack_len
            },
            Err(LimitcutError::SilentAudio) => sliding.needle_len <= sliding.haystack_len
                && sliding.silent,
            Err(LimitcutError::CorrelationScoreTooLow { score, threshold }) => {
                &&& sliding.needle_len <= sliding.haystack_len && !sliding.silent
                &&& exists|k: int|
                    #![trigger sliding.scores@[k]]
                    is_first_best(sliding.scores@, k) && score == best_score(sliding.scores@, k)
                        && is_too_low(sliding.scores@[k])
                &&& threshold.bits == MIN_SCORE_BITS
            },
            _ => {
                &&& sliding.needle_len <= sliding.haystack_len && !sliding.silent
                &&& exists|k: int|
                    #![trigger sliding.scores@[k]]
                    is_first_best(sliding.scores@, k) && !is_too_low(sliding.scores@[k])
                        && is_cut_point(r, pre_duration, k as nat, sliding.scores@[k])
            },
        },
{
    require_pre_audio(sliding.haystack_len)?;
    require_post_audio(sliding.needle_len)?;
    let (offset, score) = match cross_correlate(sliding) {
        Ok(found) => found,
        Err(e) => {
            return Err(e);
        },
    };
    let (tail_start, _) = search_window(pre_duration);
    let cut = cut_point(tail_start, offset);
    assert(sliding.scores@[offset as int] == score);
    if cut.is_less(Binary64::zero()) || pre_duration.is_less(cut) {
        return Err(LimitcutError::CutPointOutOfRange { cut, duration: pre_duration });
    }
    Ok(CorrelationResult { cut_point_secs: cut, score, pre_duration_secs: pre_duration })
}

// ── Laws ─────────────────────────────────────────────────────────────────

/// At most one offset is the best: what is found does not depend on the way
/// it is looked for.
pub proof fn law_best_offset_unique(scores: Seq<Binary64>, a: int, b: int)
    requires
        is_first_best(scores, a),
        is_first_best(scores, b),
    ensures
        a == b,
{
    if a < b {
        assert(rank(scores[a].bits) < rank(scores[b].bits));
    }
    if b < a {
        assert(rank(scores[b].bits) < rank(scores[a].bits));
    }
}

/// A haystack that fits in the searched end of the pre-video gives a cut point
/// within the pre-video, and within its searched end.
pub proof fn law_cut_point_in_window(
    pre_duration: Binary64,
    haystack_len: usize,
    needle_len: usize,
    offset: nat,
)
    requires
        pre_duration.is_finite(),
        0 <= pre_duration.value(),
        offset + needle_len <= haystack_len,
        samples_last(haystack_len as nat).value() <= pre_duration.value() - tail_start_of(
            pre_duration,
        ).value(),
    ensures
        !less(cut_point_at(tail_start_of(pre_duration), offset), tail_start_of(pre_duration)),
        !is_out_of_range(cut_point_at(tail_start_of(pre_duration), offset), pre_duration),
{
    let tail = tail_start_of(pre_duration);
    let behind = samples_last(offset);
    let cut = cut_point_at(tail, offset);
    lemma_tail_start(pre_duration);
    lemma_samples_last(offset, haystack_len as nat);
    law_order_is_that_of_values(behind, behind);
    law_order_is_that_of_values(samples_last(haystack_len as nat), behind);
    law_sum_keeps_bounds(tail, behind, pre_duration);
    law_order_is_that_of_values(cut, tail);
    law_order_is_that_of_values(cut, zero());
    law_order_is_that_of_values(pre_duration, cut);
    law_order_is_that_of_values(zero(), zero());
}

/// Where the searched end of the pre-video should begin: six seconds before
/// the end, or at the start. In units of 2⁻¹⁰⁷⁴ seconds.
spec fn window_start(pre_duration: int) -> int {
    if pre_duration > 6 * one() {
        pre_duration - 6 * one()
    } else {
        0
    }
}

/// Whether `n` is no farther from `exact` than a few parts in 2⁵³ of it, as
/// many as there are roundings on the way.
spec fn is_close(n: int, exact: int) -> bool {
    (n - exact) * FULL <= 5 * exact && (exact - n) * FULL <= 5 * exact
}

/// The last six seconds of the pre-video are searched, or all of it where it is
/// shorter: the search begins where it should and goes on to the end.
pub proof fn law_last_six_seconds_are_searched(pre_duration: Binary64)
    requires
        pre_duration.is_finite(),
        0 <= pre_duration.value(),
    ensures
        tail_start_of(pre_duration).is_finite(),
        ({
            let exact = if pre_duration.value() > 6 * one() {
                pre_duration.value() - 6 * one()
            } else {
                0
            };
            let found = tail_start_of(pre_duration).value();
            &&& (found - exact) * 0x20_0000_0000_0000 <= exact
            &&& (exact - found) * 0x20_0000_0000_0000 <= exact
        }),
        difference(pre_duration, tail_start_of(pre_duration)).is_finite(),
        is_near(
            difference(pre_duration, tail_start_of(pre_duration)).value(),
            pre_duration.value() - tail_start_of(pre_duration).value(),
        ),
{
    let window = whole(SEARCH_WINDOW_SECS as nat);
    lemma_tail_start(pre_duration);
    law_whole_is_exact(6);
    law_zero();
    law_powers_of_two(0, 1074);
    if window.value() <= pre_duration.value() {
        law_difference_is_near(pre_duration, window);
        law_at_least_zero(difference(pre_duration, window));
    } else {
        law_negative_difference(pre_duration, window);
    }
    law_difference_is_near(pre_duration, tail_start_of(pre_duration));
}

/// So many samples last so many sixteen-thousandths of a second.
pub proof fn law_samples_last(samples: nat)
    requires
        samples <= u64::MAX,
    ensures
        samples_last(samples).is_finite(),
        0 <= samples_last(samples).value(),
        (16_000 * samples_last(samples).value() - samples * one()) * FULL <= 3 * (samples * one()),
        (samples * one() - 16_000 * samples_last(samples).value()) * FULL <= 3 * (samples * one()),
{
    let held = whole(samples);
    let rate = whole(16_000);
    let q = samples_last(samples);
    let unit = one() as int;
    lemma_samples_last(samples, samples);
    law_whole_is_finite(samples);
    law_whole_is_nearest(samples, zero());
    law_whole_is_not_negative(samples);
    law_whole_is_not_negative(16_000);
    law_whole_is_exact(16_000);
    law_powers_of_two(0, 1074);
    let exact = samples * unit;
    let h = held.value();
    assert(rate.size() == 16_000 * unit);
    assert(q.value() == q.size() && h == held.size());
    let x = q.value();
    if samples == 0 {
        assert(exact == 0) by (nonlinear_arith)
            requires
                exact == samples * unit,
                samples == 0,
        ;
        law_whole_is_exact(0);
        law_quotient_is_nearest(held, rate, zero());
        law_zero();
        assert(h * unit == 0) by (nonlinear_arith)
            requires
                h == 0,
        ;
        assert(x == 0) by (nonlinear_arith)
            requires
                size_of(x * (16_000 * unit) - h * unit) <= 0,
                h * unit == 0,
                unit > 0,
                x >= 0,
        ;
    } else {
        assert(exact >= unit) by (nonlinear_arith)
            requires
                exact == samples * unit,
                samples >= 1,
                unit > 0,
        ;
        assert(h >= 1) by (nonlinear_arith)
            requires
                (exact - h) * FULL <= exact,
                exact >= 1,
                FULL >= 2,
        ;
        lemma_rate_is_small();
        assert(h * unit >= (16_000 * unit) * HALF) by {
            assert(2 * h >= exact) by (nonlinear_arith)
                requires
                    (exact - h) * FULL <= exact,
                    exact >= 0,
                    FULL >= 2,
            ;
            assert(h >= 16_000 * HALF);
            assert(h * unit >= (16_000 * unit) * HALF) by (nonlinear_arith)
                requires
                    h >= 16_000 * HALF,
                    unit > 0,
            ;
        }
        law_quotient_is_near(held, rate);
        assert((16_000 * x - h) * FULL <= h && (h - 16_000 * x) * FULL <= h) by (nonlinear_arith)
            requires
                (x * (16_000 * unit) - h * unit) * FULL <= h * unit,
                (h * unit - x * (16_000 * unit)) * FULL <= h * unit,
                unit > 0,
        ;
    }
}

proof fn lemma_rate_is_small()
    ensures
        one() >= 2 * (16_000 * HALF),
{
    law_powers_of_two(64, 1010);
    law_powers_of_two(6, 1004);
    lemma_two_constants();
    reveal_with_fuel(two_to, 7);
    assert(two_to(1010) >= 64) by (nonlinear_arith)
        requires
            two_to(1010) == two_to(6) * two_to(1004),
            two_to(6) == 64,
            two_to(1004) >= 1,
    ;
    assert(one() >= 64 * two_to(64)) by (nonlinear_arith)
        requires
            one() == two_to(64) * two_to(1010),
            two_to(1010) >= 64,
    ;
}

/// The cut point lies as many samples behind the start of the searched end as
/// the offset says: the length of the pre-video less six seconds, or 0, and a
/// sixteen-thousandth of a second for each sample, to within five parts in 2⁵³.
pub proof fn law_cut_point_lies_at_the_offset(pre_duration: Binary64, offset: nat)
    requires
        pre_duration.is_finite(),
        0 <= pre_duration.value(),
        offset <= u64::MAX,
    ensures
        cut_point_at(tail_start_of(pre_duration), offset).is_finite(),
        ({
            let begin = if pre_duration.value() > 6 * one() {
                pre_duration.value() - 6 * one()
            } else {
                0
            };
            let exact = 16_000 * begin + offset * one();
            let found = 16_000 * cut_point_at(tail_start_of(pre_duration), offset).value();
            &&& (found - exact) * 0x20_0000_0000_0000 <= 5 * exact
            &&& (exact - found) * 0x20_0000_0000_0000 <= 5 * exact
        }),
{
    let tail = tail_start_of(pre_duration);
    let behind = samples_last(offset);
    let cut = cut_point_at(tail, offset);
    let begin = window_start(pre_duration.value());
    let n = offset * one() as int;
    law_last_six_seconds_are_searched(pre_duration);
    lemma_tail_start(pre_duration);
    law_samples_last(offset);
    lemma_samples_are_short(offset);
    law_small_step_is_near(tail, behind);
    let (a, t, q, c) = (begin, tail.value(), behind.value(), cut.value());
    law_powers_of_two(0, 1074);
    assert(n >= 0) by (nonlinear_arith)
        requires
            n == offset * one(),
            one() > 0,
    ;
    lemma_errors_add_up(a, t, q, c, n);
}

/// Wherever a search begins, the cut point lies as many samples behind that as
/// the offset says.
pub proof fn law_cut_point_lies_behind_the_start(tail_start: Binary64, offset: nat)
    requires
        tail_start.is_finite(),
        0 <= tail_start.value(),
        offset <= u64::MAX,
    ensures
        cut_point_at(tail_start, offset).is_finite(),
        ({
            let exact = 16_000 * tail_start.value() + offset * one();
            let found = 16_000 * cut_point_at(tail_start, offset).value();
            &&& (found - exact) * 0x20_0000_0000_0000 <= 5 * exact
            &&& (exact - found) * 0x20_0000_0000_0000 <= 5 * exact
        }),
{
    let behind = samples_last(offset);
    let n = offset * one() as int;
    law_samples_last(offset);
    lemma_samples_are_short(offset);
    law_small_step_is_near(tail_start, behind);
    law_powers_of_two(0, 1074);
    assert(n >= 0) by (nonlinear_arith)
        requires
            n == offset * one(),
            one() > 0,
    ;
    let t = tail_start.value();
    lemma_errors_add_up(t, t, behind.value(), cut_point_at(tail_start, offset).value(), n);
}

proof fn lemma_samples_are_short(offset: nat)
    requires
        offset <= u64::MAX,
    ensures
        samples_last(offset).value() < two_to(1139),
{
    let unit = one() as int;
    let q = samples_last(offset).value();
    let n = offset * unit;
    law_samples_last(offset);
    law_powers_of_two(65, 1074);
    law_powers_of_two(1, 64);
    lemma_two_constants();
    assert(n <= 0xffff_ffff_ffff_ffff * unit) by (nonlinear_arith)
        requires
            n == offset * unit,
            offset <= 0xffff_ffff_ffff_ffff,
            unit > 0,
    ;
    assert(q < 2 * (0x1_0000_0000_0000_0000 * unit)) by (nonlinear_arith)
        requires
            (16_000 * q - n) * FULL <= 3 * n,
            n <= 0xffff_ffff_ffff_ffff * unit,
            FULL >= 3,
            unit > 0,
    ;
    assert(two_to(1139) == 2 * (0x1_0000_0000_0000_0000 * unit)) by (nonlinear_arith)
        requires
            two_to(1139) == two_to(65) * unit,
            two_to(65) == 2 * 0x1_0000_0000_0000_0000,
    ;
}

proof fn lemma_errors_add_up(a: int, t: int, q: int, c: int, n: int)
    requires
        0 <= a,
        0 <= t,
        0 <= q,
        0 <= n,
        is_near(t, a),
        (16_000 * q - n) * FULL <= 3 * n,
        (n - 16_000 * q) * FULL <= 3 * n,
        is_near(c, t + q),
    ensures
        is_close(16_000 * c, 16_000 * a + n),
{
    let f = FULL as int;
    assert((t - a) * f == t * f - a * f && (a - t) * f == a * f - t * f) by (nonlinear_arith);
    assert((16_000 * q - n) * f == 16_000 * (q * f) - n * f && (n - 16_000 * q) * f == n * f
        - 16_000 * (q * f)) by (nonlinear_arith);
    assert((c - (t + q)) * f == c * f - t * f - q * f && ((t + q) - c) * f == t * f + q * f - c * f)
        by (nonlinear_arith);
    assert((16_000 * c - (16_000 * a + n)) * f == 16_000 * (c * f) - 16_000 * (a * f) - n * f)
        by (nonlinear_arith);
    assert(((16_000 * a + n) - 16_000 * c) * f == 16_000 * (a * f) + n * f - 16_000 * (c * f))
        by (nonlinear_arith);
    assert(t <= 2 * a) by (nonlinear_arith)
        requires
            t * f - a * f <= a,
            f >= 1,
            a >= 0,
            t >= 0,
    ;
    assert(16_000 * q <= 2 * n) by (nonlinear_arith)
        requires
            16_000 * (q * f) - n * f <= 3 * n,
            f >= 3,
            n >= 0,
            q >= 0,
    ;
}

/// What is found is the cut point of an offset, with the score there and the
/// length of the pre-video; it is refused only where it does not lie within the
/// pre-video.
pub proof fn law_found_cut_point_lies_at_the_offset(
    found: CorrelationResult,
    pre_duration: Binary64,
    offset: nat,
    score: Binary64,
)
    requires
        pre_duration.is_finite(),
        0 <= pre_duration.value(),
        offset <= u64::MAX,
        is_cut_point(Ok(found), pre_duration, offset, score),
    ensures
        found.cut_point_secs.is_finite(),
        ({
            let begin = if pre_duration.value() > 6 * one() {
                pre_duration.value() - 6 * one()
            } else {
                0
            };
            let exact = 16_000 * begin + offset * one();
            let cut = 16_000 * found.cut_point_secs.value();
            &&& (cut - exact) * 0x20_0000_0000_0000 <= 5 * exact
            &&& (exact - cut) * 0x20_0000_0000_0000 <= 5 * exact
        }),
        0 <= found.cut_point_secs.value() <= pre_duration.value(),
        found.score == score,
        found.pre_duration_secs == pre_duration,
{
    law_cut_point_lies_at_the_offset(pre_duration, offset);
    law_order_is_that_of_values(found.cut_point_secs, zero());
    law_order_is_that_of_values(pre_duration, found.cut_point_secs);
    law_zero();
}

/// A cut point is refused only where it does not lie within the pre-video, and
/// is told as it is.
pub proof fn law_refused_cut_point_is_out_of_range(
    cut: Binary64,
    duration: Binary64,
    pre_duration: Binary64,
    offset: nat,
    score: Binary64,
)
    requires
        pre_duration.is_finite(),
        0 <= pre_duration.value(),
        offset <= u64::MAX,
        is_cut_point(
            Err(LimitcutError::CutPointOutOfRange { cut, duration }),
            pre_duration,
            offset,
            score,
        ),
    ensures
        duration == pre_duration,
        cut.value() > pre_duration.value(),
        ({
            let begin = if pre_duration.value() > 6 * one() {
                pre_duration.value() - 6 * one()
            } else {
                0
            };
            let exact = 16_000 * begin + offset * one();
            let told = 16_000 * cut.value();
            &&& (told - exact) * 0x20_0000_0000_0000 <= 5 * exact
            &&& (exact - told) * 0x20_0000_0000_0000 <= 5 * exact
        }),
{
    let tail = tail_start_of(pre_duration);
    law_cut_point_lies_at_the_offset(pre_duration, offset);
    lemma_tail_start(pre_duration);
    law_samples_last(offset);
    law_order_is_that_of_values(cut, zero());
    law_order_is_that_of_values(pre_duration, cut);
    law_zero();
    law_sum_keeps_sign(tail, samples_last(offset));
}

/// The best offset has a score that no other is above, and that none before it
/// reaches: it is the first of the highest. Where there is a number among the
/// scores, it is a number.
pub proof fn law_best_offset_has_the_highest_score(scores: Seq<Binary64>, k: int, j: int)
    requires
        is_first_best(scores, k),
        0 <= j < scores.len(),
    ensures
        !less(scores[k], scores[j]),
        j < k ==> scores[j].is_nan() || less(scores[j], scores[k]),
        scores[k].is_nan() ==> scores[j].is_nan() || (scores[j].is_infinite()
            && scores[j].is_negative()),
{
    assert(rank(scores[j].bits) <= rank(scores[k].bits));
    if j < k {
        assert(rank(scores[j].bits) < rank(scores[k].bits));
    }
}

/// A score of 0.3, as near as a number comes to it, is enough and a lower one is
/// not; what is no number is not.
pub proof fn law_score_of_three_tenths_is_enough(score: Binary64)
    ensures
        is_too_low(score) <==> score.is_nan() || less(score, Binary64 { bits: MIN_SCORE_BITS }),
        is_near(10 * (Binary64 { bits: MIN_SCORE_BITS }).value(), (3 * one()) as int),
{
    let min = Binary64 { bits: MIN_SCORE_BITS };
    let (m, s) = (min.digits(), min.shift());
    assert(MIN_SCORE_BITS as nat / HALF as nat == 1021);
    assert(s == 1020 && m == 0x13_3333_3333_3333) by {
        assert(MIN_SCORE_BITS as nat % HALF as nat == 0x3_3333_3333_3333);
    }
    law_powers_of_two(1020, 54);
    reveal_with_fuel(two_to, 7);
    lemma_eight_more(6);
    lemma_eight_more(14);
    lemma_eight_more(22);
    lemma_eight_more(30);
    lemma_eight_more(38);
    lemma_eight_more(46);
    let u = two_to(1020) as int;
    assert(two_to(54) == 0x40_0000_0000_0000);
    assert(one() == 0x40_0000_0000_0000 * u) by (nonlinear_arith)
        requires
            one() == u * two_to(54),
            two_to(54) == 0x40_0000_0000_0000,
    ;
    assert(min.value() == 0x13_3333_3333_3333 * u);
}

proof fn lemma_tail_start(pre_duration: Binary64)
    requires
        pre_duration.is_finite(),
        0 <= pre_duration.value(),
    ensures
        tail_start_of(pre_duration).is_finite(),
        0 <= tail_start_of(pre_duration).value() <= pre_duration.value(),
{
    let window = whole(SEARCH_WINDOW_SECS as nat);
    law_whole_is_exact(SEARCH_WINDOW_SECS as nat);
    law_order_is_that_of_values(zero(), zero());
    if window.value() <= pre_duration.value() {
        law_difference_is_near(pre_duration, window);
        law_order_is_that_of_values(difference(pre_duration, window), zero());
    } else {
        law_negative_difference(pre_duration, window);
    }
}

/// Fewer samples last no longer.
proof fn lemma_samples_last(few: nat, many: nat)
    requires
        few <= many <= u64::MAX,
    ensures
        samples_last(many).is_finite(),
        samples_last(few).is_finite(),
        !samples_last(few).is_negative(),
        !samples_last(many).is_negative(),
        samples_last(few).far() <= samples_last(many).far(),
{
    let rate = whole(CORRELATION_SAMPLE_RATE as nat);
    law_whole_is_exact(CORRELATION_SAMPLE_RATE as nat);
    law_whole_grows(few, many);
    law_whole_grows(CORRELATION_SAMPLE_RATE as nat, CORRELATION_SAMPLE_RATE as nat);
    law_whole_is_finite(many);
    law_order_is_that_of_values(zero(), rate);
    law_order_is_that_of_values(zero(), zero());
    law_powers_of_two(0, 1074);
    law_quotient_grows(whole(few), whole(many), rate);
    law_quotient_shrinks(whole(many), rate);
}

/// Half a second of the post-video is looked for.
pub proof fn law_needle_is_half_a_second()
    ensures
        2 * (Binary64 { bits: NEEDLE_DURATION_BITS }).value() == one(),
        (Binary64 { bits: NEEDLE_DURATION_BITS }).is_finite(),
{
    let half = Binary64 { bits: NEEDLE_DURATION_BITS };
    assert(NEEDLE_DURATION_BITS as nat / HALF as nat == 1022);
    assert(half.shift() == 1021 && half.digits() == HALF);
    law_powers_of_two(1021, 52);
    reveal_with_fuel(two_to, 5);
    lemma_eight_more(4);
    lemma_eight_more(12);
    lemma_eight_more(20);
    lemma_eight_more(28);
    lemma_eight_more(36);
    lemma_eight_more(44);
    assert(two_to(1074) == 2 * two_to(1073));
    let u = two_to(1021) as int;
    assert(HALF as int * u == u * two_to(52)) by (nonlinear_arith)
        requires
            two_to(52) == HALF,
    ;
}

/// The score that is told where it is too low is the best there is, or minus
/// infinity where no score is a number above that.
pub proof fn law_told_score(scores: Seq<Binary64>, k: int)
    requires
        is_first_best(scores, k),
    ensures
        scores[k].is_nan() ==> k == 0,
        !scores[k].is_nan() ==> best_score(scores, k) == scores[k],
        scores[k].is_nan() ==> best_score(scores, k).is_infinite() && best_score(
            scores,
            k,
        ).is_negative(),
{
    if k > 0 {
        assert(rank(scores[0].bits) < rank(scores[k].bits));
    }
}

} // verus!
