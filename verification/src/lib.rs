//! Segment-level tags of HTTP Live Streaming playlists: their text form,
//! their fields and the protocol version each one asks for.

pub mod attribute;
pub mod client_attributes;
pub mod date;
pub mod decryption_key;
pub mod duration;
pub mod error;
pub mod hex;
pub mod number;
pub mod quoted;
pub mod tag;
pub mod text;
pub mod types;
