//! The tags of a playlist, by the part of the playlist they belong to.

pub mod media_segment;
