//! The ffmpeg binaries and the H.264 encoder to use.

use vstd::prelude::*;

use crate::error::LimitcutError;
use crate::ffmpeg::command::{words, CommandView, FfmpegCommand};
use crate::text::{cat3, contains, law_occurs_inside, occurs, same_text, texts};

verus! {

/// The ffmpeg and ffprobe binaries located on this system.
///
/// `P` is whatever the program names a file by.
#[derive(Debug, Clone)]
pub struct FfmpegBinaries<P> {
    pub ffmpeg: P,
    pub ffprobe: P,
}

impl<P> FfmpegBinaries<P> {
    /// Both binaries, from what a search of `PATH` found for each, with a
    /// distinct error for each that is missing.
    pub fn locate(ffmpeg: Option<P>, ffprobe: Option<P>) -> (r: Result<Self, LimitcutError>)
        ensures
            match r {
                Ok(bins) => ffmpeg == Some(bins.ffmpeg) && ffprobe == Some(bins.ffprobe),
                Err(LimitcutError::FfmpegNotFound) => ffmpeg is None,
                Err(LimitcutError::FfprobeNotFound) => ffmpeg is Some && ffprobe is None,
                Err(_) => false,
            },
    {
        match (ffmpeg, ffprobe) {
            (Some(ffmpeg), Some(ffprobe)) => Ok(FfmpegBinaries { ffmpeg, ffprobe }),
            (None, _) => Err(LimitcutError::FfmpegNotFound),
            (Some(_), None) => Err(LimitcutError::FfprobeNotFound),
        }
    }
}

/// H.264 encoder configuration including its quality CLI arguments.
#[derive(Debug, Clone, PartialEq, Eq)]
pub struct EncoderConfig {
    /// The ffmpeg encoder name (e.g. `h264_nvenc`).
    pub name: String,
    /// Human-readable label for display.
    pub display_name: String,
    /// Quality arguments appended after `-c:v <name>`.
    pub quality_args: Vec<String>,
}

/// The texts of an [`EncoderConfig`].
#[verifier::ext_equal]
pub struct EncoderView {
    pub name: Seq<char>,
    pub display_name: Seq<char>,
    pub quality_args: Seq<Seq<char>>,
}

impl View for EncoderConfig {
    type V = EncoderView;

    open spec fn view(&self) -> EncoderView {
        EncoderView {
            name: self.name@,
            display_name: self.display_name@,
            quality_args: texts(self.quality_args@),
        }
    }
}

pub open spec fn libx264_view() -> EncoderView {
    EncoderView {
        name: "libx264"@,
        display_name: "libx264 (CPU)"@,
        quality_args: seq!["-crf"@, "18"@, "-preset"@, "medium"@],
    }
}

pub open spec fn nvenc_view() -> EncoderView {
    EncoderView {
        name: "h264_nvenc"@,
        display_name: "NVIDIA NVENC"@,
        quality_args: seq!["-cq"@, "18"@, "-preset"@, "p4"@],
    }
}

pub open spec fn vaapi_view() -> EncoderView {
    EncoderView {
        name: "h264_vaapi"@,
        display_name: "VAAPI (AMD/Intel)"@,
        quality_args: seq!["-qp"@, "18"@],
    }
}

pub open spec fn videotoolbox_view() -> EncoderView {
    EncoderView {
        name: "h264_videotoolbox"@,
        display_name: "VideoToolbox (macOS)"@,
        quality_args: seq!["-q:v"@, "65"@],
    }
}

/// The configuration that goes with a full ffmpeg encoder name.
pub open spec fn encoder_view(name: Seq<char>) -> EncoderView {
    if name == "h264_nvenc"@ {
        nvenc_view()
    } else if name == "h264_vaapi"@ {
        vaapi_view()
    } else if name == "h264_videotoolbox"@ {
        videotoolbox_view()
    } else {
        libx264_view()
    }
}

fn args2(a: &str, b: &str) -> (v: Vec<String>)
    ensures
        texts(v@) == seq![a@, b@],
{
    let mut v: Vec<String> = Vec::new();
    v.push(a.to_owned());
    v.push(b.to_owned());
    assert(texts(v@) =~= seq![a@, b@]);
    v
}

fn args4(a: &str, b: &str, c: &str, d: &str) -> (v: Vec<String>)
    ensures
        texts(v@) == seq![a@, b@, c@, d@],
{
    let mut v: Vec<String> = Vec::new();
    v.push(a.to_owned());
    v.push(b.to_owned());
    v.push(c.to_owned());
    v.push(d.to_owned());
    assert(texts(v@) =~= seq![a@, b@, c@, d@]);
    v
}

impl EncoderConfig {
    /// Software encoding, good anywhere.
    pub fn libx264() -> (r: Self)
        ensures
            r@ == libx264_view(),
    {
        EncoderConfig {
            name: "libx264".to_owned(),
            display_name: "libx264 (CPU)".to_owned(),
            quality_args: args4("-crf", "18", "-preset", "medium"),
        }
    }

    pub fn nvenc() -> (r: Self)
        ensures
            r@ == nvenc_view(),
    {
        EncoderConfig {
            name: "h264_nvenc".to_owned(),
            display_name: "NVIDIA NVENC".to_owned(),
            quality_args: args4("-cq", "18", "-preset", "p4"),
        }
    }

    pub fn vaapi() -> (r: Self)
        ensures
            r@ == vaapi_view(),
    {
        EncoderConfig {
            name: "h264_vaapi".to_owned(),
            display_name: "VAAPI (AMD/Intel)".to_owned(),
            quality_args: args2("-qp", "18"),
        }
    }

    pub fn videotoolbox() -> (r: Self)
        ensures
            r@ == videotoolbox_view(),
    {
        EncoderConfig {
            name: "h264_videotoolbox".to_owned(),
            display_name: "VideoToolbox (macOS)".to_owned(),
            quality_args: args2("-q:v", "65"),
        }
    }

    /// The software encoder as it is set for a 1080p Discord post.
    pub fn discord_1080p() -> (r: Self)
        ensures
            r@ == (EncoderView {
                display_name: "libx264 (Discord 1080p profile)"@,
                ..libx264_view()
            }),
    {
        EncoderConfig {
            name: "libx264".to_owned(),
            display_name: "libx264 (Discord 1080p profile)".to_owned(),
            quality_args: args4("-crf", "18", "-preset", "medium"),
        }
    }

    /// The software encoder as it is set for a 720p Discord post.
    pub fn discord_720p() -> (r: Self)
        ensures
            r@ == (EncoderView {
                display_name: "libx264 (Discord 720p profile)"@,
                ..libx264_view()
            }),
    {
        EncoderConfig {
            name: "libx264".to_owned(),
            display_name: "libx264 (Discord 720p profile)".to_owned(),
            quality_args: args4("-crf", "18", "-preset", "medium"),
        }
    }

    /// Build an `EncoderConfig` from a canonical encoder name string.
    ///
    /// Accepts the full ffmpeg names. Falls back to `libx264` for any unknown name.
    pub fn from_name(name: &str) -> (r: Self)
        ensures
            r@ == encoder_view(name@),
    {
        if same_text(name, "h264_nvenc") {
            EncoderConfig::nvenc()
        } else if same_text(name, "h264_vaapi") {
            EncoderConfig::vaapi()
        } else if same_text(name, "h264_videotoolbox") {
            EncoderConfig::videotoolbox()
        } else {
            EncoderConfig::libx264()
        }
    }
}

/// Build the command that lists the encoders which ffmpeg knows.
pub fn build_encoders_command<'a, P>(ffmpeg: &'a P) -> (cmd: FfmpegCommand<'a, P>)
    ensures
        cmd@ == (CommandView { program: *ffmpeg, args: words(seq!["-encoders"@, "-hide_banner"@]) }),
{
    let mut cmd = FfmpegCommand::new(ffmpeg);
    cmd.pair("-encoders", "-hide_banner");
    assert(cmd@.args =~= words(seq!["-encoders"@, "-hide_banner"@]));
    cmd
}

/// Whether a listing of encoders names this one: the name with a space before
/// it, and a space or the end of the line behind it.
pub open spec fn listed(text: Seq<char>, name: Seq<char>) -> bool {
    occurs(text, " "@ + name + " "@) || occurs(text, " "@ + name + "\n"@)
}

/// The best encoder of a listing: NVENC, then VAAPI, then VideoToolbox, then
/// the software encoder.
pub open spec fn best_listed(text: Seq<char>) -> EncoderView {
    if listed(text, "h264_nvenc"@) {
        nvenc_view()
    } else if listed(text, "h264_vaapi"@) {
        vaapi_view()
    } else if listed(text, "h264_videotoolbox"@) {
        videotoolbox_view()
    } else {
        libx264_view()
    }
}

/// Whether the output of `ffmpeg -encoders` lists an encoder.
///
/// A line of it looks like ` V....D h264_nvenc  NVIDIA NVENC H.264 encoder`.
/// The name must stand between blanks, so that no longer name matches.
pub fn encoder_present_in_text(text: &str, enc_name: &str) -> (r: bool)
    ensures
        r == listed(text@, enc_name@),
{
    let padded = cat3(" ", enc_name, " ");
    let eol = cat3(" ", enc_name, "\n");
    contains(text, padded.as_str()) || contains(text, eol.as_str())
}

/// The best available H.264 encoder, given the output of `ffmpeg -encoders`.
///
/// Looks in order: NVENC, VAAPI, VideoToolbox, libx264. Returns `libx264` if
/// no hardware encoder is listed.
pub fn detect_best_encoder(encoders: &str) -> (r: EncoderConfig)
    ensures
        r@ == best_listed(encoders@),
{
    if encoder_present_in_text(encoders, "h264_nvenc") {
        EncoderConfig::nvenc()
    } else if encoder_present_in_text(encoders, "h264_vaapi") {
        EncoderConfig::vaapi()
    } else if encoder_present_in_text(encoders, "h264_videotoolbox") {
        EncoderConfig::videotoolbox()
    } else {
        EncoderConfig::libx264()
    }
}

/// Each of the four known encoders is what its own name stands for.
pub proof fn law_from_name_of_known_encoder()
    ensures
        encoder_view(nvenc_view().name) == nvenc_view(),
        encoder_view(vaapi_view().name) == vaapi_view(),
        encoder_view(videotoolbox_view().name) == videotoolbox_view(),
        encoder_view(libx264_view().name) == libx264_view(),
{
    reveal_strlit("h264_nvenc");
    reveal_strlit("h264_vaapi");
    reveal_strlit("h264_videotoolbox");
    reveal_strlit("libx264");
    assert("h264_vaapi"@[5] == 'v');
    assert("h264_nvenc"@[5] == 'n');
    assert("h264_videotoolbox"@.len() != "h264_vaapi"@.len());
    assert("libx264"@.len() != "h264_vaapi"@.len());
    assert("libx264"@.len() != "h264_nvenc"@.len());
    assert("libx264"@.len() != "h264_videotoolbox"@.len());
}

/// What each name stands for: the encoder of that name with its quality
/// settings, or the software encoder.
pub proof fn law_each_encoder_by_its_name(name: Seq<char>)
    ensures
        ({
            let e = encoder_view(name);
            if name == "h264_nvenc"@ {
                &&& e.name == name
                &&& e.display_name == "NVIDIA NVENC"@
                &&& e.quality_args == seq!["-cq"@, "18"@, "-preset"@, "p4"@]
            } else if name == "h264_vaapi"@ {
                &&& e.name == name
                &&& e.display_name == "VAAPI (AMD/Intel)"@
                &&& e.quality_args == seq!["-qp"@, "18"@]
            } else if name == "h264_videotoolbox"@ {
                &&& e.name == name
                &&& e.display_name == "VideoToolbox (macOS)"@
                &&& e.quality_args == seq!["-q:v"@, "65"@]
            } else {
                &&& e.name == "libx264"@
                &&& e.display_name == "libx264 (CPU)"@
                &&& e.quality_args == seq!["-crf"@, "18"@, "-preset"@, "medium"@]
            }
        }),
{
    law_from_name_of_known_encoder();
}

/// An encoder is listed just where its name stands in the text with a space
/// before it and a space or the end of the line behind it.
pub proof fn law_listed_between_blanks(text: Seq<char>, name: Seq<char>)
    ensures
        listed(text, name) <==> exists|front: Seq<char>, back: Seq<char>|
            text == #[trigger] (front + (" "@ + name + " "@) + back) || text == front + (" "@ + name
                + "\n"@) + back,
{
    let (inner, last) = (" "@ + name + " "@, " "@ + name + "\n"@);
    law_occurs_inside(text, inner);
    law_occurs_inside(text, last);
    if listed(text, name) {
        if occurs(text, inner) {
            let (front, back) = choose|front: Seq<char>, back: Seq<char>|
                text == #[trigger] (front + inner + back);
            assert(text == front + (" "@ + name + " "@) + back);
        } else {
            let (front, back) = choose|front: Seq<char>, back: Seq<char>|
                text == #[trigger] (front + last + back);
            let other = front + (" "@ + name + " "@) + back;
            assert(text == front + (" "@ + name + "\n"@) + back);
        }
    }
    if exists|front: Seq<char>, back: Seq<char>|
        text == #[trigger] (front + inner + back) || text == front + last + back {
        let (front, back) = choose|front: Seq<char>, back: Seq<char>|
            text == #[trigger] (front + inner + back) || text == front + last + back;
        assert(text == front + inner + back || text == front + last + back);
    }
}

/// The best encoder is one that is listed, and none before it is: NVENC goes
/// before VAAPI, that before VideoToolbox, and the software encoder is what is
/// left.
pub proof fn law_best_encoder_is_the_first_listed(text: Seq<char>)
    ensures
        ({
            let best = best_listed(text);
            let (nvenc, vaapi) = (listed(text, "h264_nvenc"@), listed(text, "h264_vaapi"@));
            let videotoolbox = listed(text, "h264_videotoolbox"@);
            &&& nvenc ==> best == encoder_view("h264_nvenc"@)
            &&& !nvenc && vaapi ==> best == encoder_view("h264_vaapi"@)
            &&& !nvenc && !vaapi && videotoolbox ==> best == encoder_view("h264_videotoolbox"@)
            &&& !nvenc && !vaapi && !videotoolbox ==> best == encoder_view("libx264"@)
        }),
{
    law_from_name_of_known_encoder();
}

/// The encoders that are set up by themselves are those of the names.
pub proof fn law_encoders_by_themselves()
    ensures
        nvenc_view() == encoder_view("h264_nvenc"@),
        vaapi_view() == encoder_view("h264_vaapi"@),
        videotoolbox_view() == encoder_view("h264_videotoolbox"@),
        libx264_view() == encoder_view("libx264"@),
{
    law_from_name_of_known_encoder();
}

} // verus!
