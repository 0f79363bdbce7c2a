//! Selection of audio and subtitle tracks to keep when remuxing video files,
//! and the naming rules for the files that come out.

pub mod args;
pub mod bdmv;
pub mod text;
pub mod util;
pub mod common;
pub mod json;
pub mod mkv;
pub mod peel;
