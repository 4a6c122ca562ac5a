//! The configuration file.

use vstd::prelude::*;

use crate::cli::BlurRegion;
use crate::error::LimitcutError;
use crate::paths::{OutputPath, OutputView};
use crate::binary64::Binary64;
use crate::text::{cat5, texts};

verus! {

/// The size of a video that is posted to Discord.
#[derive(Debug, Clone, Copy, PartialEq, Eq, Structural)]
pub enum DiscordVideoMode {
    P1080,
    P720,
}

/// User configuration loaded from the config file.
///
/// Every field is optional: missing keys simply fall back to the built-in
/// defaults. CLI flags always override config values.
#[derive(Debug, Clone)]
pub struct Config<P> {
    /// H.264 encoder to use (e.g. "nvenc", "libx264").
    pub encoder: Option<String>,
    /// Fade-in duration.
    pub fadein: Option<Binary64>,
    /// Fade-out duration.
    pub fadeout: Option<Binary64>,
    /// Time of black screen before the fade-in begins.
    pub black_hold: Option<Binary64>,
    /// Always overwrite the output file without prompting.
    pub overwrite: Option<bool>,
    /// Default output directory.
    ///
    /// Equivalent to `--output-dir` on the CLI. In normal mode the filename is
    /// auto-generated from the pre-video. In JSON mode encounter subfolders are
    /// created under this directory.
    pub output_dir: Option<P>,
    /// Blur regions applied to the output video.
    pub blur: Vec<BlurRegion>,
    /// Whether to post to Discord at all.
    pub discord_enabled: Option<bool>,
    /// Where to post.
    pub discord_webhook_url: Option<String>,
    /// The size of a posted video.
    pub discord_video_mode: Option<DiscordVideoMode>,
}

impl<P> Config<P> {
    /// Whether no key is set.
    pub open spec fn is_default(self) -> bool {
        &&& self.encoder is None
        &&& self.fadein is None
        &&& self.fadeout is None
        &&& self.black_hold is None
        &&& self.overwrite is None
        &&& self.output_dir is None
        &&& self.blur@.len() == 0
        &&& self.discord_enabled is None
        &&& self.discord_webhook_url is None
        &&& self.discord_video_mode is None
    }
}

impl<P> Default for Config<P> {
    fn default() -> (r: Self)
        ensures
            r.is_default(),
    {
        Config {
            encoder: None,
            fadein: None,
            fadeout: None,
            black_hold: None,
            overwrite: None,
            output_dir: None,
            blur: Vec::new(),
            discord_enabled: None,
            discord_webhook_url: None,
            discord_video_mode: None,
        }
    }
}

/// Default config file template written on first run.
///
/// All keys are commented out so the user starts from the built-in defaults
/// and can selectively enable what they need.
pub const DEFAULT_CONFIG_TEMPLATE: &'static str = "\
# limitcut configuration file
# All keys are optional. CLI flags always override these values.

# H.264 encoder. Options: nvenc, vaapi, videotoolbox, libx264
# If not set, the best available encoder is auto-detected.
# encoder = \"libx264\"

# Fade-in / fade-out durations in seconds (default: 1.0 each).
# fadein = 1.0
# fadeout = 1.0

# Seconds of black screen before the fade-in begins (default: 0).
# black_hold = 0.0

# Always overwrite the output file without prompting (default: false).
# overwrite = false

# Default output directory. This is the same as passing --output-dir.
# In normal mode, the filename is auto-generated from the pre-video
# (e.g. \"prepull_combined.mp4\"). In JSON mode, output is organised as
# `<dir>/YYYY-MM-DD/<encounter>/<job>/HH-MM-SS.mp4`. If not set, output
# goes next to the pre-video (normal mode) or next to the JSON file (JSON mode).
# output_dir = \"/home/user/Videos\"

# Blur regions applied to the output video. Repeat this block for
# each region. CLI --blur flags replace all config blurs when present.
# [[blur]]
# x = 0
# y = 0
# width = 100
# height = 100
";

/// What there was to load.
#[derive(Debug)]
pub enum ConfigFile<P> {
    /// The platform has no configuration directory.
    NoDirectory,
    /// There is no configuration file yet.
    Missing,
    /// The file is there and could not be read.
    Unreadable { path: String, error: String },
    /// The file is there and is not well-formed.
    Malformed { path: String, error: String },
    /// What the file says.
    Parsed(Config<P>),
}

impl<P> ConfigFile<P> {
    /// Whether to write [`DEFAULT_CONFIG_TEMPLATE`] for the user to edit.
    pub fn wants_template(&self) -> (r: bool)
        ensures
            r == (self is Missing),
    {
        match self {
            ConfigFile::Missing => true,
            _ => false,
        }
    }
}

impl<P> Config<P> {
    /// Where the config file is: `limitcut/config.toml` below the platform's
    /// configuration directory, if there is one.
    ///
    /// | Platform | Path |
    /// |---|---|
    /// | Linux | `~/.config/limitcut/config.toml` |
    /// | macOS | `~/Library/Application Support/limitcut/config.toml` |
    /// | Windows | `%APPDATA%\\limitcut\\config.toml` |
    pub fn path<'a>(config_dir: Option<&'a P>) -> (r: Option<OutputPath<'a, P>>)
        ensures
            match (r, config_dir) {
                (Some(path), Some(dir)) => path@ == (OutputView {
                    dir: Some(*dir),
                    parts: seq!["limitcut"@, "config.toml"@],
                }),
                (None, None) => true,
                _ => false,
            },
    {
        match config_dir {
            Some(dir) => {
                let mut parts: Vec<String> = Vec::new();
                parts.push("limitcut".to_owned());
                parts.push("config.toml".to_owned());
                assert(texts(parts@) =~= seq!["limitcut"@, "config.toml"@]);
                Some(OutputPath { dir: Some(dir), parts })
            },
            None => None,
        }
    }

    /// The configuration to run with.
    ///
    /// - Without a config file, or without a directory to hold one, all fields
    ///   are at their defaults.
    /// - If the config file exists but cannot be read or is malformed, a hard
    ///   error is returned so the user knows to fix it.
    pub fn load(found: ConfigFile<P>) -> (r: Result<Self, LimitcutError>)
        ensures
            match found {
                ConfigFile::NoDirectory | ConfigFile::Missing => r is Ok && r->Ok_0.is_default(),
                ConfigFile::Unreadable { path, error } => r matches Err(
                    LimitcutError::ConfigParseError { path: p, source },
                ) && p@ == path@ && source@ == "could not read file: "@ + path@ + " ("@ + error@
                    + ")"@,
                ConfigFile::Malformed { path, error } => r matches Err(
                    LimitcutError::ConfigParseError { path: p, source },
                ) && p@ == path@ && source@ == error@,
                ConfigFile::Parsed(config) => r == Ok::<Config<P>, LimitcutError>(config),
            },
    {
        match found {
            ConfigFile::NoDirectory => Ok(Config::default()),
            ConfigFile::Missing => Ok(Config::default()),
            ConfigFile::Unreadable { path, error } => {
                let source = cat5("could not read file: ", path.as_str(), " (", error.as_str(), ")");
                Err(LimitcutError::ConfigParseError { path, source })
            },
            ConfigFile::Malformed { path, error } => Err(
                LimitcutError::ConfigParseError { path, source: error },
            ),
            ConfigFile::Parsed(config) => Ok(config),
        }
    }
}

// ── Laws ─────────────────────────────────────────────────────────────────

/// Built-in defaults leave every key unset.
pub proof fn law_defaults_set_nothing<P>(config: Config<P>)
    ensures
        config.is_default() <==> {
            &&& config.encoder is None && config.output_dir is None && config.overwrite is None
            &&& config.fadein is None && config.fadeout is None && config.black_hold is None
            &&& config.blur@.len() == 0
            &&& config.discord_enabled is None && config.discord_webhook_url is None
            &&& config.discord_video_mode is None
        },
{
}

} // verus!
