//! Seamlessly combine two overlapping video recordings into a single MP4.
//!
//! A **pre-video** (like a replay buffer clip) and a **post-video** (the full
//! recording that starts slightly before the pre-video ends) are compared by
//! their sound, and stitched together where they overlap. This library holds
//! all that is decided and computed on the way: what the arguments mean, which
//! commands ffmpeg is given and what its answers mean, where to cut, what
//! metadata files say and where outputs go. It reads no file and runs no
//! program; what it has to know of either it is told in plain values.
//!
//! - [`cli`], [`config`]: arguments and settings
//! - [`run`], [`steps`]: the modes of the program, and what a run does in which order
//! - [`ffmpeg`]: filter graphs and commands, and what comes back
//! - [`overlap`]: the cut point
//! - [`json_input`], [`instapost`], [`discord`]: metadata files and posts
//! - [`error`]: everything that can go wrong
//! - [`text`], [`number`], [`binary64`], [`timestamp`], [`paths`], [`listing`],
//!   [`shell`]: what the rest is made of

pub mod binary64;
pub mod cli;
pub mod config;
pub mod discord;
pub mod error;
pub mod ffmpeg;
pub mod instapost;
pub mod json_input;
pub mod listing;
pub mod number;
pub mod overlap;
pub mod paths;
pub mod run;
pub mod shell;
pub mod steps;
pub mod text;
pub mod timestamp;
