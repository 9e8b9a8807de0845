use morsewave::{MorseCodec, MorseWave, ToneEvent, ToneScheduler};

const TABLE: &[(char, &str)] = &[
    ('A', ".-"),
    ('B', "-..."),
    ('C', "-.-."),
    ('D', "-.."),
    ('E', "."),
    ('F', "..-."),
    ('G', "--."),
    ('H', "...."),
    ('I', ".."),
    ('J', ".---"),
    ('K', "-.-"),
    ('L', ".-.."),
    ('M', "--"),
    ('N', "-."),
    ('O', "---"),
    ('P', ".--."),
    ('Q', "--.-"),
    ('R', ".-."),
    ('S', "..."),
    ('T', "-"),
    ('U', "..-"),
    ('V', "...-"),
    ('W', ".--"),
    ('X', "-..-"),
    ('Y', "-.--"),
    ('Z', "--.."),
    ('0', "-----"),
    ('1', ".----"),
    ('2', "..---"),
    ('3', "...--"),
    ('4', "....-"),
    ('5', "....."),
    ('6', "-...."),
    ('7', "--..."),
    ('8', "---.."),
    ('9', "----."),
    ('.', ".-.-.-"),
    (',', "--..--"),
    ('?', "..--.."),
    ('!', "-.-.--"),
    ('/', "-..-."),
    ('(', "-.--."),
    (')', "-.--.-"),
    ('&', ".-..."),
    (':', "---..."),
    (';', "-.-.-."),
    ('=', "-...-"),
    ('+', ".-.-."),
    ('-', "-....-"),
    ('_', "..--.-"),
    ('"', ".-..-."),
    ('$', "...-..-"),
    ('@', ".--.-."),
    (' ', "/"),
];

fn ev(start: u64, duration: u64) -> ToneEvent {
    ToneEvent { start, duration }
}

#[test]
fn table_codes_are_exact() {
    let codec = MorseCodec::new();
    for (c, code) in TABLE {
        assert_eq!(codec.encode(&c.to_string()), *code, "encoding {:?}", c);
        assert_eq!(codec.decode(code), c.to_string(), "decoding {:?}", code);
    }
}

#[test]
fn round_trip_every_table_character() {
    let codec = MorseCodec::new();
    for (c, _) in TABLE {
        let upper = c.to_uppercase().to_string();
        assert_eq!(codec.decode(&codec.encode(&upper)), upper);
    }
}

#[test]
fn round_trip_lower_case_letters() {
    let codec = MorseCodec::new();
    for c in 'a'..='z' {
        let upper = c.to_uppercase().to_string();
        assert_eq!(codec.decode(&codec.encode(&c.to_string())), upper);
    }
}

#[test]
fn case_does_not_matter() {
    let codec = MorseCodec::new();
    for s in ["Hello, World!", "sos", "MiXeD cAsE 123", "", "q?"] {
        assert_eq!(codec.encode(s), codec.encode(&s.to_uppercase()));
    }
    assert_eq!(codec.encode("sos"), "... --- ...");
}

#[test]
fn non_ascii_letters_are_upper_cased() {
    let codec = MorseCodec::new();
    // LATIN SMALL LETTER LONG S upper-cases to S.
    assert_eq!(codec.encode("\u{17f}"), "...");
    assert_eq!(codec.encode("\u{e9}"), "");
}

#[test]
fn unmapped_characters_are_dropped() {
    let codec = MorseCodec::new();
    let r = codec.encode("HELLO!#WORLD");
    assert_eq!(r, ".... . .-.. .-.. --- -.-.-- .-- --- .-. .-.. -..");
    assert!(r.contains("-.-.--"));
    assert!(!r.contains('#'));
}

#[test]
fn validate_is_lexical_only() {
    let codec = MorseCodec::new();
    assert!(codec.validate("--- ---"));
    assert_eq!(codec.decode("--- ---"), "OO");
    assert_eq!(codec.encode("SOS"), "... --- ...");
    assert!(codec.validate("--------"));
    assert_eq!(codec.decode("--------"), "");
}

#[test]
fn validate_cases() {
    let codec = MorseCodec::new();
    assert!(codec.validate(""));
    assert!(codec.validate("   "));
    assert!(codec.validate(".- / -..."));
    assert!(codec.validate("...\t---\n..."));
    assert!(codec.validate("...\u{2003}---"));
    assert!(!codec.validate("... a ---"));
    assert!(!codec.validate("..._"));
}

#[test]
fn word_space_becomes_slash() {
    let codec = MorseCodec::new();
    let r = codec.encode("HI THERE");
    assert_eq!(r, ".... .. / - .... . .-. .");
    let tokens: Vec<&str> = r.split(' ').collect();
    assert_eq!(tokens[2], "/");
    assert_eq!(tokens.iter().filter(|t| **t == "/").count(), 1);
    assert_eq!(codec.decode(&r), "HI THERE");
}

#[test]
fn hello_examples() {
    let codec = MorseCodec::new();
    assert_eq!(codec.encode("HELLO"), ".... . .-.. .-.. ---");
    assert_eq!(codec.decode(".... . .-.. .-.. ---"), "HELLO");
    assert_eq!(codec.decode("... --- ..."), "SOS");
}

#[test]
fn decode_drops_what_is_not_a_code() {
    let codec = MorseCodec::new();
    assert_eq!(codec.decode(""), "");
    assert_eq!(codec.decode("...  ---"), "SO");
    assert_eq!(codec.decode(" ... "), "S");
    assert_eq!(codec.decode("... x --- .-.-.-.-"), "SO");
    assert_eq!(codec.decode("...-..-"), "$");
    assert_eq!(codec.decode("...-..-."), "");
    assert_eq!(codec.decode("//"), "");
    assert_eq!(codec.decode("/"), " ");
    assert_eq!(codec.decode("-..-."), "/");
}

#[test]
fn empty_input() {
    let codec = MorseCodec::new();
    assert_eq!(codec.encode(""), "");
    assert_eq!(codec.encode("#%^"), "");
    let s = ToneScheduler::new(20);
    assert!(s.schedule("", 0).is_empty());
}

#[test]
fn timing_at_twenty_wpm() {
    let s = ToneScheduler::new(20);
    assert_eq!(s.base_unit(), 60);
    assert_eq!(s.schedule(".", 0), vec![ev(0, 60)]);
    assert_eq!(s.schedule("-", 0), vec![ev(0, 180)]);
    assert_eq!(s.schedule(".-", 0), vec![ev(0, 60), ev(120, 180)]);
}

#[test]
fn timing_of_gaps() {
    let s = ToneScheduler::new(20);
    assert_eq!(s.schedule(". .", 0), vec![ev(0, 60), ev(300, 60)]);
    assert_eq!(s.schedule(". / .", 1000), vec![ev(1000, 60), ev(1900, 60)]);
    assert_eq!(s.schedule("-x-", 5), vec![ev(5, 180), ev(245, 180)]);
    assert_eq!(s.schedule(" /", 0), vec![]);
}

#[test]
fn base_unit_rounds_down() {
    assert_eq!(ToneScheduler::new(7).base_unit(), 171);
    assert_eq!(ToneScheduler::new(1).base_unit(), 1200);
    assert_eq!(ToneScheduler::new(5000).base_unit(), 0);
}

#[test]
fn speed_change_mid_stream() {
    let mut s = ToneScheduler::new(20);
    let before = s.schedule("..", 0);
    s.set_speed(10);
    assert_eq!(s.wpm(), 10);
    assert_eq!(s.base_unit(), 120);
    let after = s.schedule("..", 0);
    assert_eq!(before, vec![ev(0, 60), ev(120, 60)]);
    assert_eq!(after, vec![ev(0, 120), ev(240, 120)]);
}

#[test]
fn tones_do_not_overlap() {
    let s = ToneScheduler::new(12);
    let u = s.base_unit();
    let events = s.schedule(&MorseCodec::new().encode("Paris is 42!"), 7);
    assert!(!events.is_empty());
    for w in events.windows(2) {
        assert!(w[0].start + w[0].duration + u <= w[1].start);
    }
    for e in &events {
        assert!(e.duration == u || e.duration == 3 * u);
    }
}

#[test]
fn morse_wave_front() {
    let m = MorseWave::new();
    assert_eq!(m.text_to_morse("HELLO"), ".... . .-.. .-.. ---");
    assert_eq!(m.morse_to_text(".... . .-.. .-.. ---"), "HELLO");
    assert!(m.validate_morse("... --- ..."));
    assert!(!m.validate_morse("...a"));
}

#[test]
fn round_trip_keeps_table_characters() {
    let codec = MorseCodec::new();
    assert_eq!(codec.decode(&codec.encode("Hi, there #1 ~ok~")), "HI, THERE 1 OK");
    assert_eq!(codec.decode(&codec.encode("  ")), "  ");
}
