//! A terminal speed reader's core: word batching, per-word pacing, the
//! highlighted letter of each word and the playback decisions of each tick.
pub mod pacing;
pub mod words;
pub mod playback;
