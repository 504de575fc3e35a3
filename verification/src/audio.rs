//! The audio streams that sound banks hold.

pub mod mp3;
pub mod vorbis;
