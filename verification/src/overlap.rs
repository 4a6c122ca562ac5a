//! Where two recordings overlap.

pub mod correlate;
pub mod score;
