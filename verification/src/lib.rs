//! Verified core of a GoPro chaptered-recording merger.
//!
//! Camera filenames are parsed into identity fingerprints and chapter
//! identifiers, folded into ordered groups, and each group is merged by an
//! event-driven state machine that plans the external transcoder's work.

pub mod concat;
pub mod duration;
pub mod encoding;
pub mod ffmpeg;
pub mod group;
pub mod grouper;
pub mod identifier;
pub mod merge;
pub mod movie;
pub mod progress;
pub mod recording;
pub mod text;
