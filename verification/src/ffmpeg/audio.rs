//! Raw audio, as ffmpeg extracts it.

use vstd::prelude::*;

use crate::error::LimitcutError;
use crate::ffmpeg::command::{time, time_text, words, ArgView, CommandView, FfmpegCommand};
use crate::number::{dec, decimal};
use crate::binary64::{is_positive, Binary64};

verus! {

/// Audio sample rate used for cross-correlation analysis (16 kHz mono).
pub const CORRELATION_SAMPLE_RATE: u32 = 16_000;

/// The arguments that extract a region of a media file.
pub open spec fn pcm_args<P>(media: P, start: Binary64, duration: Binary64) -> Seq<ArgView<P>> {
    let seek = if is_positive(start) {
        words(seq!["-ss"@, time_text(start)])
    } else {
        Seq::empty()
    };
    words(seq!["-hide_banner"@, "-loglevel"@, "error"@]) + seek + seq![
        ArgView::Text("-i"@),
        ArgView::File(media),
    ] + words(
        seq![
            "-t"@,
            time_text(duration),
            "-vn"@,
            "-ac"@,
            "1"@,
            "-ar"@,
            dec(CORRELATION_SAMPLE_RATE as nat),
            "-f"@,
            "f32le"@,
            "-"@,
        ],
    )
}

/// Build the command that extracts a region of a media file as raw mono
/// samples and pipes them to stdout.
///
/// The samples are little-endian 32-bit floats at [`CORRELATION_SAMPLE_RATE`] Hz.
pub fn build_pcm_command<'a, P>(
    ffmpeg: &'a P,
    media: &'a P,
    start_secs: Binary64,
    duration_secs: Binary64,
) -> (cmd: FfmpegCommand<'a, P>)
    ensures
        cmd@ == (CommandView {
            program: *ffmpeg,
            args: pcm_args(*media, start_secs, duration_secs),
        }),
{
    let mut cmd = FfmpegCommand::new(ffmpeg);
    cmd.text("-hide_banner");
    cmd.pair("-loglevel", "error");
    if start_secs.is_above_zero() {
        cmd.pair("-ss", time(start_secs).as_str());
    }
    cmd.text("-i");
    cmd.file(media);
    cmd.pair("-t", time(duration_secs).as_str());
    cmd.text("-vn");
    cmd.pair("-ac", "1");
    cmd.pair("-ar", decimal(CORRELATION_SAMPLE_RATE as u128).as_str());
    cmd.pair("-f", "f32le");
    cmd.text("-");
    assert(cmd@.args =~= pcm_args(*media, start_secs, duration_secs));
    cmd
}

/// Four bytes as a number, the lowest first.
pub open spec fn le_word(b: Seq<u8>) -> int {
    b[0] + b[1] * 0x100 + b[2] * 0x1_0000 + b[3] * 0x100_0000
}

/// The bits of the samples that ffmpeg wrote, one word for each.
///
/// # Errors
///
/// - [`LimitcutError::AudioExtractionFailed`] if ffmpeg did not succeed.
/// - [`LimitcutError::AudioDataCorrupt`] if the bytes are no whole number of samples.
pub fn pcm_samples(
    media: &str,
    success: bool,
    stdout: &[u8],
    stderr: String,
) -> (r: Result<Vec<u32>, LimitcutError>)
    ensures
        match r {
            Ok(samples) => {
                &&& success && stdout@.len() == samples@.len() * 4
                &&& forall|i: int|
                    0 <= i < samples@.len() ==> #[trigger] samples@[i] == le_word(
                        stdout@.subrange(i * 4, i * 4 + 4),
                    )
            },
            Err(LimitcutError::AudioExtractionFailed { path, stderr: text }) => !success && path@
                == media@ && text == stderr,
            Err(LimitcutError::AudioDataCorrupt { len }) => success && stdout@.len() % 4 != 0
                && len == stdout@.len(),
            Err(_) => false,
        },
{
    if !success {
        return Err(LimitcutError::AudioExtractionFailed { path: media.to_owned(), stderr });
    }
    if stdout.len() % 4 != 0 {
        return Err(LimitcutError::AudioDataCorrupt { len: stdout.len() });
    }
    let n: usize = stdout.len() / 4;
    let mut samples: Vec<u32> = Vec::new();
    let mut i: usize = 0;
    while i < n
        invariant
            i <= n,
            n * 4 == stdout.len(),
            samples@.len() == i,
            forall|j: int|
                0 <= j < i ==> #[trigger] samples@[j] == le_word(
                    stdout@.subrange(j * 4, j * 4 + 4),
                ),
        decreases n - i,
    {
        let at: usize = i * 4;
        let word: u32 = stdout[at] as u32 + stdout[at + 1] as u32 * 0x100 + stdout[at + 2] as u32
            * 0x1_0000 + stdout[at + 3] as u32 * 0x100_0000;
        proof {
            let b = stdout@.subrange(i * 4, i * 4 + 4);
            assert(b[0] == stdout@[i * 4] && b[1] == stdout@[i * 4 + 1] && b[2] == stdout@[i * 4
                + 2] && b[3] == stdout@[i * 4 + 3]);
        }
        samples.push(word);
        i += 1;
    }
    Ok(samples)
}

// ── Laws ─────────────────────────────────────────────────────────────────

/// Four bytes count as a number does whose digits are bytes, the lowest first.
pub proof fn law_lowest_byte_first(a: u8, b: u8, c: u8, d: u8)
    ensures
        le_word(seq![a, b, c, d]) == a + 256 * (b + 256 * (c + 256 * d)),
        0 <= le_word(seq![a, b, c, d]) <= 0xffff_ffff,
{
}

} // verus!
