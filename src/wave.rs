//! The front of the library: encoding, decoding and checking Morse strings.
use vstd::prelude::*;

use crate::codec::{
    ascii_upper_text, decode_text, encode_text, is_ascii_text, lexically_valid, upper_of,
    MorseCodec,
};

verus! {

/// Morse transcoding behind one value.
pub struct MorseWave {
    codec: MorseCodec,
}

impl MorseWave {
    /// The transcoder.
    pub fn new() -> (r: Self) {
        MorseWave { codec: MorseCodec::new() }
    }

    /// The Morse string of `text`; see `MorseCodec::encode`.
    pub fn text_to_morse(&self, text: &str) -> (r: String)
        ensures
            r@ == encode_text(upper_of(text@)),
            is_ascii_text(text@) ==> r@ == encode_text(ascii_upper_text(text@)),
    {
        self.codec.encode(text)
    }

    /// The text of a Morse string; see `MorseCodec::decode`.
    pub fn morse_to_text(&self, morse: &str) -> (r: String)
        ensures
            r@ == decode_text(morse@),
    {
        self.codec.decode(morse)
    }

    /// Whether `morse` is written with dots, dashes, slashes and whitespace
    /// alone; see `MorseCodec::validate`.
    pub fn validate_morse(&self, morse: &str) -> (r: bool)
        ensures
            r == lexically_valid(morse@),
    {
        self.codec.validate(morse)
    }
}

} // verus!
