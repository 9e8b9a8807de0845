//! Text to and from International Morse Code, and the timing of its tones.
//!
//! `table` holds the fixed code table, `codec` encodes and decodes with it,
//! `schedule` turns a Morse string into timed tones, and `wave` puts the
//! transcoding behind one value.

pub mod codec;
pub mod schedule;
pub mod table;
pub mod wave;

pub use codec::MorseCodec;
pub use schedule::{ToneEvent, ToneScheduler};
pub use wave::MorseWave;
