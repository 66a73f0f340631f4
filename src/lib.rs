//! Looped mono PCM WAV audio: reading loop metadata, editing and blending the
//! loop seam, writing it back, and the sample-accurate looping playback logic.

pub mod player;
pub mod project;
pub mod reader;
pub mod stream;
