use std::f32::consts::PI;

use limitcut::error::LimitcutError;
use limitcut::ffmpeg::audio::CORRELATION_SAMPLE_RATE;
use limitcut::overlap::correlate::{
    cross_correlate as pick_offset, cut_point, find_cut_point, min_score, needle_duration,
    require_post_audio, require_pre_audio, search_window, Sliding,
};
use limitcut::overlap::score::rank_of_bits;
use limitcut::binary64::Binary64;

/// A number as the library holds it.
fn secs(s: f64) -> Binary64 {
    Binary64 {
        bits: s.to_bits(),
    }
}

fn slide(haystack: &[f32], needle: &[f32]) -> Sliding {
    let energy: f64 = needle.iter().map(|&s| (s as f64).powi(2)).sum();
    let mut scores = Vec::new();
    if needle.len() <= haystack.len() {
        for window in haystack.windows(needle.len()) {
            let mut dot = 0.0f64;
            let mut hay_energy = 0.0f64;
            for (&h, &n) in window.iter().zip(needle.iter()) {
                dot += h as f64 * n as f64;
                hay_energy += h as f64 * h as f64;
            }
            let score = if hay_energy > 1e-10 {
                dot / (hay_energy.sqrt() * energy.sqrt())
            } else {
                0.0
            };
            scores.push(secs(score));
        }
    }
    Sliding {
        haystack_len: haystack.len(),
        needle_len: needle.len(),
        silent: energy < 1e-10,
        scores,
    }
}

fn cross_correlate(haystack: &[f32], needle: &[f32]) -> Result<(usize, f64), LimitcutError> {
    pick_offset(&slide(haystack, needle)).map(|(offset, s)| (offset, f64::from_bits(s.bits)))
}

fn sine_wave(freq_hz: f32, sample_rate: u32, num_samples: usize) -> Vec<f32> {
    (0..num_samples)
        .map(|i| (2.0 * PI * freq_hz * i as f32 / sample_rate as f32).sin())
        .collect()
}

// ── cross_correlate ───────────────────────────────────────────────────────

#[test]
fn identical_signals_peak_at_zero() {
    let signal = sine_wave(440.0, 16_000, 1_600);
    let (offset, score) = cross_correlate(&signal, &signal).unwrap();
    assert_eq!(offset, 0, "identical signals should match at offset 0");
    assert!(score > 0.99, "score should be near 1.0, got {}", score);
}

#[test]
fn shifted_signal_finds_correct_offset() {
    // Haystack: 2000-sample sine, needle: 800 samples taken from offset 300
    let haystack = sine_wave(440.0, 16_000, 2_000);
    let needle = haystack[300..1100].to_vec();
    let (offset, score) = cross_correlate(&haystack, &needle).unwrap();
    assert_eq!(
        offset, 300,
        "should find needle at offset 300, got {}",
        offset
    );
    assert!(score > 0.99, "score should be near 1.0, got {}", score);
}

#[test]
fn noisy_shift_finds_approximate_offset() {
    // Use a frequency sweep (chirp) instead of a pure sine: a chirp is non-periodic
    // so the correlation has a unique global peak even with a tiny amount of noise.
    let haystack: Vec<f32> = (0..3_000usize)
        .map(|i| {
            let t = i as f32 / 16_000.0;
            // Linear chirp from 200 Hz to 800 Hz over the haystack
            let freq = 200.0 + 600.0 * t;
            (2.0 * std::f32::consts::PI * freq * t).sin()
        })
        .collect();

    let true_offset = 500usize;
    let mut needle: Vec<f32> = haystack[true_offset..true_offset + 800].to_vec();

    // Add tiny deterministic noise (amplitude far below 1.0)
    for (i, s) in needle.iter_mut().enumerate() {
        let noise = ((i % 7) as f32 - 3.0) * 0.001;
        *s += noise;
    }

    let (offset, _score) = cross_correlate(&haystack, &needle).unwrap();
    assert_eq!(offset, true_offset);
}

#[test]
fn silent_needle_returns_error() {
    let haystack = sine_wave(440.0, 16_000, 1_600);
    let silent_needle = vec![0.0f32; 400];
    let err = cross_correlate(&haystack, &silent_needle).unwrap_err();
    assert!(
        matches!(err, LimitcutError::SilentAudio),
        "expected SilentAudio, got {:?}",
        err
    );
}

#[test]
fn needle_longer_than_haystack_returns_error() {
    let haystack = vec![1.0f32; 10];
    let needle = vec![1.0f32; 20];
    let err = cross_correlate(&haystack, &needle).unwrap_err();
    assert!(
        matches!(
            err,
            LimitcutError::NeedleTooLong {
                needle_len: 20,
                haystack_len: 10
            }
        ),
        "expected NeedleTooLong, got {:?}",
        err
    );
}

#[test]
fn low_score_returns_error() {
    // Haystack: pseudo-random noise, needle: a clean sine at a different frequency.
    // These share no structure so the correlation score will be below the minimum.
    let random_haystack: Vec<f32> = (0..3200usize)
        .map(|i| {
            // deterministic pseudo-random via Knuth multiplicative hash
            (i.wrapping_mul(2_654_435_761) >> 16) as f32 / 65_536.0 - 0.5
        })
        .collect();
    let sine_needle = sine_wave(100.0, 16_000, 800);
    let err = cross_correlate(&random_haystack, &sine_needle).unwrap_err();
    assert!(
        matches!(err, LimitcutError::CorrelationScoreTooLow { .. }),
        "expected CorrelationScoreTooLow, got {:?}",
        err
    );
}

#[test]
fn single_sample_needle() {
    // Edge case: needle of length 1
    let haystack: Vec<f32> = vec![0.0, 0.0, 0.0, 1.0, 0.0, 0.0];
    let needle: Vec<f32> = vec![1.0];
    let (offset, score) = cross_correlate(&haystack, &needle).unwrap();
    assert_eq!(offset, 3);
    assert!(score > 0.99);
}

#[test]
fn same_length_haystack_and_needle() {
    // Only one possible offset: 0
    let signal = sine_wave(440.0, 16_000, 800);
    let (offset, score) = cross_correlate(&signal, &signal).unwrap();
    assert_eq!(offset, 0);
    assert!(score > 0.99);
}

#[test]
fn first_of_equal_scores_wins() {
    let scores: Vec<Binary64> = [0.1, 0.9, -0.5, 0.9, 0.8].map(secs).to_vec();
    let sliding = Sliding {
        haystack_len: 5,
        needle_len: 1,
        silent: false,
        scores,
    };
    let (offset, score) = pick_offset(&sliding).unwrap();
    assert_eq!((offset, score), (1, secs(0.9)));
}

#[test]
fn score_order_is_that_of_the_numbers() {
    let numbers = [
        f64::NEG_INFINITY,
        -2.0,
        -1.0,
        -1e-300,
        0.0,
        1e-300,
        0.29999999999999993,
        0.3,
        1.0,
        f64::INFINITY,
    ];
    for pair in numbers.windows(2) {
        assert!(rank_of_bits(pair[0].to_bits()) < rank_of_bits(pair[1].to_bits()));
    }
    assert_eq!(rank_of_bits((-0.0f64).to_bits()), 0);
    assert_eq!(rank_of_bits(0.0f64.to_bits()), 0);
    assert_eq!(rank_of_bits(1.5f64.to_bits()), 1.5f64.to_bits() as i64);
    assert_eq!(rank_of_bits((-1.5f64).to_bits()), -(1.5f64.to_bits() as i64));
    for lowest in [f64::NAN, -f64::NAN, f64::NEG_INFINITY] {
        assert_eq!(rank_of_bits(lowest.to_bits()), i64::MIN);
    }
    assert_eq!(secs(0.3), min_score());
}

#[test]
fn minimum_score_is_enough() {
    let at = |score: f64| {
        pick_offset(&Sliding {
            haystack_len: 1,
            needle_len: 1,
            silent: false,
            scores: vec![secs(score)],
        })
    };
    assert_eq!(at(0.3).unwrap(), (0, min_score()));
    match at(0.29999999999999993) {
        Err(LimitcutError::CorrelationScoreTooLow { score, threshold }) => {
            assert_eq!(score, secs(0.29999999999999993));
            assert_eq!(threshold, min_score());
        }
        other => panic!("{other:?}"),
    }
    assert_eq!(
        at(f64::NAN).unwrap_err().message(),
        "No audio overlap detected (correlation score -inf < threshold 0.300). \
         The two videos may not overlap, or both clips are silent."
    );
    assert_eq!(
        at(-0.1234).unwrap_err().message(),
        "No audio overlap detected (correlation score -0.123 < threshold 0.300). \
         The two videos may not overlap, or both clips are silent."
    );
}

// ── cut_point_secs derivation ─────────────────────────────────────────────

#[test]
fn cut_point_formula() {
    // If tail_start = 4.0s, offset = 0.5s, then cut_point = 4.5s
    let tail_start = 4.0f64;
    let offset_samples = (0.5 * CORRELATION_SAMPLE_RATE as f64) as usize;
    let cut = f64::from_bits(cut_point(secs(tail_start), offset_samples).bits);
    assert!(
        (cut - 4.5).abs() < 0.001,
        "cut should be ~4.5s, got {}",
        cut
    );
    assert_eq!(cut_point(secs(4.0), 8_000), secs(4.5));
    assert_eq!(cut_point(secs(0.0), 1), secs(1.0 / 16_000.0));
    assert_eq!(cut_point(secs(0.0), 1).fixed(6), "0.000063");
}

#[test]
fn windows() {
    assert_eq!(search_window(secs(10.5)), (secs(4.5), secs(6.0)));
    assert_eq!(search_window(secs(6.0)), (secs(0.0), secs(6.0)));
    assert_eq!(search_window(secs(2.0)), (secs(0.0), secs(2.0)));
    assert_eq!(needle_duration(), secs(0.5));
}

#[test]
fn cut_point_found() {
    let mut scores = vec![secs(0.0); 100];
    scores[32] = secs(0.75);
    let sliding = Sliding {
        haystack_len: 107,
        needle_len: 8,
        silent: false,
        scores,
    };
    let found = find_cut_point(secs(30.0), &sliding).unwrap();
    assert_eq!(found.cut_point_secs, secs(24.002));
    assert_eq!(found.cut_point_secs.fixed(9), "24.002000000");
    assert_eq!(found.score, secs(0.75));
    assert_eq!(found.pre_duration_secs, secs(30.0));
    assert!(matches!(
        find_cut_point(secs(0.001), &sliding),
        Err(LimitcutError::CutPointOutOfRange { .. })
    ));
    match find_cut_point(secs(0.0015), &sliding) {
        Err(LimitcutError::CutPointOutOfRange { cut, duration }) => {
            assert_eq!((cut, duration), (secs(0.002), secs(0.0015)))
        }
        other => panic!("{other:?}"),
    }
}

#[test]
fn empty_audio_is_told_first() {
    let empty = |haystack_len, needle_len| Sliding {
        haystack_len,
        needle_len,
        silent: true,
        scores: Vec::new(),
    };
    assert!(matches!(
        find_cut_point(secs(10.0), &empty(0, 0)),
        Err(LimitcutError::EmptyPreAudio)
    ));
    assert!(matches!(
        find_cut_point(secs(10.0), &empty(0, 5)),
        Err(LimitcutError::EmptyPreAudio)
    ));
    assert!(matches!(
        find_cut_point(secs(10.0), &empty(5, 0)),
        Err(LimitcutError::EmptyPostAudio)
    ));
    assert!(matches!(
        find_cut_point(secs(10.0), &empty(5, 6)),
        Err(LimitcutError::NeedleTooLong { .. })
    ));
    assert!(matches!(
        find_cut_point(secs(10.0), &empty(6, 5)),
        Err(LimitcutError::SilentAudio)
    ));
    assert!(require_pre_audio(1).is_ok());
    assert!(require_post_audio(1).is_ok());
    assert!(require_pre_audio(0).is_err());
    assert!(require_post_audio(0).is_err());
}

#[test]
fn cut_point_of_a_full_window_is_in_range() {
    // 6 s of samples, with the needle at the very end
    let n = 96_000usize;
    let needle_len = 8_000usize;
    let mut scores = vec![secs(0.0); n - needle_len + 1];
    *scores.last_mut().unwrap() = secs(1.0);
    let sliding = Sliding {
        haystack_len: n,
        needle_len,
        silent: false,
        scores,
    };
    let found = find_cut_point(secs(20.0), &sliding).unwrap();
    assert_eq!(found.cut_point_secs, secs(19.5));
}
