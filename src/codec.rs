//! Text to Morse strings and back.
//!
//! A Morse string is a sequence of tokens, each a code of the table, separated
//! by single spaces. Characters and tokens outside the table are dropped, so
//! encoding and decoding are total.
use vstd::prelude::*;

use crate::table::{
    char_of, char_of_key, code_key, code_of, elements, is_element, key_of, key_of_elements,
    lemma_char_of_code, lemma_elements_of_key, lemma_key_of_elements, WORD_SEPARATOR,
};

verus! {

/// What `str::to_uppercase` returns for a text.
pub uninterp spec fn upper_of(s: Seq<char>) -> Seq<char>;

/// Every character of `s` is ASCII.
pub open spec fn is_ascii_text(s: Seq<char>) -> bool {
    forall|i: int| 0 <= i < s.len() ==> (#[trigger] s[i] as u32) < 0x80
}

/// An ASCII lower-case letter raised to upper case; any other character kept.
pub open spec fn ascii_upper(c: char) -> char {
    if 0x61 <= c as u32 <= 0x7a {
        ((c as u32) - 0x20) as char
    } else {
        c
    }
}

/// `s` with its ASCII lower-case letters raised to upper case.
pub open spec fn ascii_upper_text(s: Seq<char>) -> Seq<char> {
    s.map_values(|c: char| ascii_upper(c))
}

/// Relies on `str::to_uppercase`: the upper-case form depends on the text
/// alone, and on ASCII text it raises `a` to `z` and keeps the rest.
#[verifier::external_body]
fn to_upper(s: &str) -> (r: String)
    ensures
        r@ == upper_of(s@),
        is_ascii_text(s@) ==> r@ == ascii_upper_text(s@),
{
    s.to_uppercase()
}

/// Relies on `String::push`: appends one character.
#[verifier::external_body]
fn push_char(s: &mut String, c: char)
    ensures
        final(s)@ == old(s)@.push(c),
{
    s.push(c)
}

/// The characters with the Unicode White_Space property.
pub open spec fn white_space(c: char) -> bool {
    let u = c as u32;
    ||| 0x09 <= u <= 0x0d
    ||| u == 0x20
    ||| u == 0x85
    ||| u == 0xa0
    ||| u == 0x1680
    ||| 0x2000 <= u <= 0x200a
    ||| u == 0x2028
    ||| u == 0x2029
    ||| u == 0x202f
    ||| u == 0x205f
    ||| u == 0x3000
}

/// Relies on `char::is_whitespace`: true exactly for the characters with the
/// Unicode White_Space property.
#[verifier::external_body]
fn is_white(c: char) -> (r: bool)
    ensures
        r == white_space(c),
{
    c.is_whitespace()
}

/// The codes of the characters of `u` that have one, in order.
pub open spec fn codes(u: Seq<char>) -> Seq<Seq<char>>
    decreases u.len(),
{
    if u.len() == 0 {
        Seq::empty()
    } else {
        match code_of(u.last()) {
            Some(code) => codes(u.drop_last()).push(code),
            None => codes(u.drop_last()),
        }
    }
}

/// The codes of `cs`, with a single space between each two.
pub open spec fn join_spaced(cs: Seq<Seq<char>>) -> Seq<char>
    decreases cs.len(),
{
    if cs.len() == 0 {
        Seq::empty()
    } else if cs.len() == 1 {
        cs[0]
    } else {
        join_spaced(cs.drop_last()) + seq![' '] + cs.last()
    }
}

/// The Morse string of an upper-case text.
pub open spec fn encode_text(u: Seq<char>) -> Seq<char> {
    join_spaced(codes(u))
}

/// The tokens of `m`: the pieces between its single spaces, empty ones included.
pub open spec fn split_spaces(m: Seq<char>) -> Seq<Seq<char>>
    decreases m.len(),
{
    if m.len() == 0 {
        seq![Seq::empty()]
    } else {
        let ts = split_spaces(m.drop_last());
        if m.last() == ' ' {
            ts.push(Seq::empty())
        } else {
            ts.update(ts.len() - 1, ts.last().push(m.last()))
        }
    }
}

/// The characters of the tokens of `ts` that are codes, in order.
pub open spec fn decode_tokens(ts: Seq<Seq<char>>) -> Seq<char>
    decreases ts.len(),
{
    if ts.len() == 0 {
        Seq::empty()
    } else {
        decode_tokens(ts.drop_last()) + match char_of(ts.last()) {
            Some(c) => seq![c],
            None => Seq::empty(),
        }
    }
}

/// The text of a Morse string.
pub open spec fn decode_text(m: Seq<char>) -> Seq<char> {
    decode_tokens(split_spaces(m))
}

/// The symbols a well-formed Morse string is written with, besides spaces.
pub open spec fn is_morse_symbol(c: char) -> bool {
    c == '.' || c == '-' || c == WORD_SEPARATOR
}

/// Every whitespace-delimited token of `m` is written with dots, dashes and
/// slashes alone.
pub open spec fn lexically_valid(m: Seq<char>) -> bool {
    forall|i: int| 0 <= i < m.len() ==> white_space(#[trigger] m[i]) || is_morse_symbol(m[i])
}

/// A Morse string without spaces is a single token.
pub proof fn lemma_split_no_space(m: Seq<char>)
    requires
        forall|i: int| 0 <= i < m.len() ==> #[trigger] m[i] != ' ',
    ensures
        split_spaces(m) == seq![m],
    decreases m.len(),
{
    if m.len() > 0 {
        let p = m.drop_last();
        assert forall|i: int| 0 <= i < p.len() implies #[trigger] p[i] != ' ' by {
            assert(p[i] == m[i]);
        }
        lemma_split_no_space(p);
        assert(p.push(m.last()) == m);
        assert(seq![p].update(0, m) == seq![m]);
    } else {
        assert(m == Seq::<char>::empty());
    }
}

/// The characters of `u` that have a code in the table, in order.
pub open spec fn table_chars(u: Seq<char>) -> Seq<char>
    decreases u.len(),
{
    if u.len() == 0 {
        Seq::empty()
    } else if code_of(u.last()) is Some {
        table_chars(u.drop_last()).push(u.last())
    } else {
        table_chars(u.drop_last())
    }
}

/// A code of the table is not empty and holds no space.
pub proof fn lemma_code_shape(c: char)
    requires
        code_of(c) is Some,
    ensures
        code_of(c).unwrap().len() > 0,
        forall|i: int|
            0 <= i < code_of(c).unwrap().len() ==> #[trigger] code_of(c).unwrap()[i] != ' ',
{
    if c != ' ' {
        lemma_key_of_elements(key_of(c));
        let k = key_of(c);
        assert(k >= 2);
        assert(elements(k) == elements(k / 2).push(if k % 2 == 0 { '.' } else { '-' }));
        assert forall|i: int| 0 <= i < elements(k).len() implies #[trigger] elements(k)[i] != ' ' by {
            assert(is_element(elements(k)[i]));
        }
    }
}

/// A space followed by a piece without spaces adds that piece as one more token.
pub proof fn lemma_split_append(m: Seq<char>, b: Seq<char>)
    requires
        forall|i: int| 0 <= i < b.len() ==> #[trigger] b[i] != ' ',
    ensures
        split_spaces(m + seq![' '] + b) == split_spaces(m).push(b),
    decreases b.len(),
{
    let x = m + seq![' '] + b;
    if b.len() == 0 {
        assert(x.drop_last() == m);
        assert(x.last() == ' ');
        assert(b == Seq::<char>::empty());
    } else {
        let p = b.drop_last();
        assert forall|i: int| 0 <= i < p.len() implies #[trigger] p[i] != ' ' by {
            assert(p[i] == b[i]);
        }
        lemma_split_append(m, p);
        assert(x.drop_last() == m + seq![' '] + p);
        assert(x.last() == b.last());
        assert(p.push(b.last()) == b);
        let ts = split_spaces(m);
        assert(ts.push(p).update(ts.len() as int, b) == ts.push(b));
    }
}

/// The codes of a text, joined, split back into the same codes.
proof fn lemma_split_join_codes(u: Seq<char>)
    requires
        codes(u).len() > 0,
    ensures
        split_spaces(join_spaced(codes(u))) == codes(u),
    decreases u.len(),
{
    let p = u.drop_last();
    if code_of(u.last()) is Some {
        let code = code_of(u.last()).unwrap();
        lemma_code_shape(u.last());
        assert(codes(u) == codes(p).push(code));
        assert(codes(u).drop_last() == codes(p));
        if codes(p).len() == 0 {
            lemma_split_no_space(code);
            assert(codes(u) == seq![code]);
        } else {
            lemma_split_join_codes(p);
            lemma_split_append(join_spaced(codes(p)), code);
        }
    } else {
        lemma_split_join_codes(p);
    }
}

/// The characters of the codes of a text are its characters that have a code.
proof fn lemma_decode_codes(u: Seq<char>)
    ensures
        decode_tokens(codes(u)) == table_chars(u),
    decreases u.len(),
{
    if u.len() > 0 {
        let p = u.drop_last();
        lemma_decode_codes(p);
        if code_of(u.last()) is Some {
            let code = code_of(u.last()).unwrap();
            lemma_char_of_code(u.last());
            assert(codes(u).drop_last() == codes(p));
            assert(codes(u).last() == code);
        }
    }
}

/// Lossless round trip: decoding the Morse string of an upper-case text gives
/// back exactly the characters of the text that have a code, in order.
pub proof fn lemma_round_trip_text(u: Seq<char>)
    ensures
        decode_text(encode_text(u)) == table_chars(u),
{
    lemma_decode_codes(u);
    if codes(u).len() > 0 {
        lemma_split_join_codes(u);
    } else {
        let e = Seq::<char>::empty();
        assert(split_spaces(e) == seq![e]);
        assert(seq![e].drop_last() == Seq::<Seq<char>>::empty());
        assert(seq![e].last() == e);
        if exists|c: char| code_of(c) == Some(e) {
            let c = choose|c: char| code_of(c) == Some(e);
            lemma_code_shape(c);
        }
        assert(char_of(e) is None);
        assert(decode_tokens(Seq::<Seq<char>>::empty()) == e);
        assert(e + e == e);
        assert(decode_tokens(seq![e]) == e);
    }
}

/// Round trip: a character of the table, or an ASCII lower-case letter
/// standing for one, taken to upper case, encoded and decoded again, comes back
/// as its upper-case form.
pub proof fn lemma_round_trip(c: char)
    requires
        (c as u32) < 0x80,
        code_of(ascii_upper(c)) is Some,
    ensures
        ascii_upper_text(ascii_upper_text(seq![c])) == ascii_upper_text(seq![c]),
        ascii_upper_text(seq![c]) == seq![ascii_upper(c)],
        decode_text(encode_text(ascii_upper_text(ascii_upper_text(seq![c])))) == ascii_upper_text(
            seq![c],
        ),
{
    let u = ascii_upper(c);
    assert(ascii_upper_text(seq![c]) == seq![u]);
    assert(ascii_upper_text(seq![u]) == seq![u]);
    let code = code_of(u).unwrap();
    assert(seq![u].drop_last() == Seq::<char>::empty());
    assert(seq![u].last() == u);
    assert(codes(Seq::<char>::empty()) == Seq::<Seq<char>>::empty());
    assert(Seq::<Seq<char>>::empty().push(code) == seq![code]);
    assert(codes(seq![u]) == seq![code]);
    assert(encode_text(seq![u]) == code);
    if u == ' ' {
        assert(code == seq![WORD_SEPARATOR]);
    } else {
        lemma_key_of_elements(key_of(u));
    }
    assert forall|i: int| 0 <= i < code.len() implies #[trigger] code[i] != ' ' by {
        if u != ' ' {
            assert(is_element(elements(key_of(u))[i]));
        }
    }
    lemma_split_no_space(code);
    lemma_char_of_code(u);
    assert(seq![code].drop_last() == Seq::<Seq<char>>::empty());
    assert(seq![code].last() == code);
    assert(char_of(code) == Some(u));
    assert(decode_tokens(Seq::<Seq<char>>::empty()) == Seq::<char>::empty());
    assert(Seq::<char>::empty() + seq![u] == seq![u]);
    assert(decode_tokens(seq![code]) == seq![u]);
}

/// Case does not matter to encoding: on ASCII text, raising the text to upper
/// case before encoding changes nothing, as encoding raises it anyway.
pub proof fn lemma_case_idempotent(s: Seq<char>)
    requires
        is_ascii_text(s),
    ensures
        is_ascii_text(ascii_upper_text(s)),
        encode_text(ascii_upper_text(ascii_upper_text(s))) == encode_text(ascii_upper_text(s)),
{
    let u = ascii_upper_text(s);
    assert forall|i: int| 0 <= i < u.len() implies (#[trigger] u[i] as u32) < 0x80 by {
        assert(u[i] == ascii_upper(s[i]));
    }
    assert(ascii_upper_text(u) == u);
}

/// Appends the elements of the code with key `key`.
fn push_elements(out: &mut String, key: u32)
    requires
        key >= 1,
    ensures
        final(out)@ == old(out)@ + elements(key as nat),
    decreases key,
{
    if key > 1 {
        push_elements(out, key / 2);
        let e = if key % 2 == 0 {
            '.'
        } else {
            '-'
        };
        push_char(out, e);
        assert(old(out)@ + elements(key as nat) == old(out)@ + elements((key / 2) as nat) + seq![
            e,
        ]);
    }
}

/// What has been read of one token of a Morse string.
struct TokenReader {
    /// The token holds at least one character.
    started: bool,
    /// The token holds dots and dashes alone.
    elements_only: bool,
    /// The token is the word separator alone.
    separator: bool,
    /// The key of the dots and dashes read, while it stays below 256.
    key: u32,
    /// The key of the dots and dashes read has reached 256: no code is that long.
    too_long: bool,
}

impl TokenReader {
    spec fn reads(self, tok: Seq<char>) -> bool {
        &&& self.started == (tok.len() > 0)
        &&& self.elements_only == (forall|i: int| 0 <= i < tok.len() ==> is_element(#[trigger] tok[i]))
        &&& self.separator == (tok == seq![WORD_SEPARATOR])
        &&& self.elements_only && !self.too_long ==> self.key == key_of_elements(tok) && self.key
            < 256
        &&& self.elements_only && self.too_long ==> key_of_elements(tok) >= 256
    }

    fn new() -> (r: Self)
        ensures
            r.reads(Seq::empty()),
    {
        TokenReader { started: false, elements_only: true, separator: false, key: 1, too_long: false }
    }

    fn push(&mut self, c: char, Ghost(tok): Ghost<Seq<char>>)
        requires
            old(self).reads(tok),
        ensures
            final(self).reads(tok.push(c)),
    {
        let ghost next = tok.push(c);
        assert(next.drop_last() == tok);
        assert(next.last() == c);
        self.separator = !self.started && c == WORD_SEPARATOR;
        proof {
            if !self.started && c == WORD_SEPARATOR {
                assert(next == seq![WORD_SEPARATOR]);
            }
            if self.started && next == seq![WORD_SEPARATOR] {
                assert(next.len() == 1);
            }
        }
        self.started = true;
        let elem = c == '.' || c == '-';
        proof {
            if self.elements_only && elem {
                assert forall|i: int| 0 <= i < next.len() implies is_element(#[trigger] next[i]) by {
                    if i < tok.len() {
                        assert(next[i] == tok[i]);
                    }
                }
            }
            if !elem {
                assert(!is_element(next[next.len() - 1]));
            }
            if !self.elements_only {
                let j = choose|j: int| 0 <= j < tok.len() && !is_element(#[trigger] tok[j]);
                assert(next[j] == tok[j]);
            }
        }
        if self.elements_only && elem {
            if !self.too_long {
                let k = 2 * self.key + if c == '.' {
                    0
                } else {
                    1
                };
                if k < 256 {
                    self.key = k;
                } else {
                    self.too_long = true;
                }
            }
        }
        self.elements_only = self.elements_only && elem;
    }

    /// The character of the token read, if it is a code.
    fn finish(&self, Ghost(tok): Ghost<Seq<char>>) -> (r: Option<char>)
        requires
            self.reads(tok),
        ensures
            r == char_of(tok),
    {
        if self.separator {
            proof {
                lemma_char_of_code(' ');
            }
            Some(' ')
        } else if self.elements_only && !self.too_long {
            let r = char_of_key(self.key);
            proof {
                lemma_elements_of_key(tok);
                match r {
                    Some(c) => {
                        assert(code_of(c) == Some(tok));
                        lemma_char_of_code(c);
                    },
                    None => {
                        if exists|d: char| code_of(d) == Some(tok) {
                            let d = choose|d: char| code_of(d) == Some(tok);
                            if d == ' ' {
                                assert(!is_element(tok[0]));
                            } else {
                                lemma_key_of_elements(key_of(d));
                            }
                        }
                    },
                }
            }
            r
        } else {
            proof {
                if exists|d: char| code_of(d) == Some(tok) {
                    let d = choose|d: char| code_of(d) == Some(tok);
                    if d != ' ' {
                        lemma_key_of_elements(key_of(d));
                    }
                }
            }
            None
        }
    }
}

/// Encodes text as Morse code and decodes it back, by the fixed table.
pub struct MorseCodec {}

impl MorseCodec {
    /// The codec; the table it reads is fixed.
    pub fn new() -> (r: Self) {
        MorseCodec {  }
    }

    /// The Morse string of `text`: its upper-case form, each character that
    /// has a code replaced by it, the codes separated by single spaces.
    /// Characters without a code are dropped.
    pub fn encode(&self, text: &str) -> (r: String)
        ensures
            r@ == encode_text(upper_of(text@)),
            is_ascii_text(text@) ==> r@ == encode_text(ascii_upper_text(text@)),
    {
        let upper = to_upper(text);
        self.encode_upper(upper.as_str())
    }

    /// The Morse string of a text already in upper case.
    pub fn encode_upper(&self, upper: &str) -> (r: String)
        ensures
            r@ == encode_text(upper@),
    {
        let mut out = String::new();
        let mut any = false;
        for c in it: upper.chars()
            invariant
                it.seq() == upper@,
                out@ == encode_text(upper@.take(it.index() as int)),
                any == (codes(upper@.take(it.index() as int)).len() > 0),
        {
            let ghost prev = upper@.take(it.index() as int);
            let ghost next = upper@.take(it.index() + 1);
            assert(next.drop_last() == prev);
            assert(next.last() == c);
            let key = code_key(c);
            if c == ' ' || key != 0 {
                if any {
                    push_char(&mut out, ' ');
                }
                if c == ' ' {
                    push_char(&mut out, WORD_SEPARATOR);
                } else {
                    push_elements(&mut out, key);
                }
                any = true;
                proof {
                    let code = code_of(c).unwrap();
                    assert(codes(next) == codes(prev).push(code));
                    assert(codes(next).drop_last() == codes(prev));
                    if codes(prev).len() == 0 {
                        assert(out@ == code);
                    } else {
                        assert(out@ == encode_text(prev) + seq![' '] + code);
                    }
                }
            }
        }
        assert(upper@.take(upper@.len() as int) == upper@);
        out
    }

    /// The text of a Morse string: each token between single spaces that is a
    /// code replaced by its character. Other tokens, empty ones included, are
    /// dropped.
    pub fn decode(&self, morse: &str) -> (r: String)
        ensures
            r@ == decode_text(morse@),
    {
        let mut out = String::new();
        let mut reader = TokenReader::new();
        for c in it: morse.chars()
            invariant
                it.seq() == morse@,
                split_spaces(morse@.take(it.index() as int)).len() >= 1,
                reader.reads(split_spaces(morse@.take(it.index() as int)).last()),
                out@ == decode_tokens(split_spaces(morse@.take(it.index() as int)).drop_last()),
        {
            let ghost prev = morse@.take(it.index() as int);
            let ghost next = morse@.take(it.index() + 1);
            let ghost ts = split_spaces(prev);
            assert(next.drop_last() == prev);
            assert(next.last() == c);
            if c == ' ' {
                let found = reader.finish(Ghost(ts.last()));
                if let Some(d) = found {
                    push_char(&mut out, d);
                }
                reader = TokenReader::new();
                proof {
                    assert(split_spaces(next) == ts.push(Seq::empty()));
                    assert(ts.push(Seq::empty()).drop_last() == ts);
                    assert(ts == ts.drop_last().push(ts.last()));
                }
            } else {
                reader.push(c, Ghost(ts.last()));
                proof {
                    let ns = split_spaces(next);
                    assert(ns == ts.update(ts.len() - 1, ts.last().push(c)));
                    assert(ns.drop_last() == ts.drop_last());
                }
            }
        }
        assert(morse@.take(morse@.len() as int) == morse@);
        let ghost ts = split_spaces(morse@);
        let found = reader.finish(Ghost(ts.last()));
        if let Some(d) = found {
            push_char(&mut out, d);
        }
        assert(ts == ts.drop_last().push(ts.last()));
        out
    }

    /// Whether every whitespace-delimited token of `morse` is written with
    /// dots, dashes and slashes alone. Whether a token is a code of the table
    /// is not asked.
    pub fn validate(&self, morse: &str) -> (r: bool)
        ensures
            r == lexically_valid(morse@),
    {
        let mut ok = true;
        for c in it: morse.chars()
            invariant
                it.seq() == morse@,
                ok == (forall|i: int|
                    0 <= i < it.index() ==> white_space(#[trigger] morse@[i]) || is_morse_symbol(
                        morse@[i],
                    )),
        {
            let fits = is_white(c) || c == '.' || c == '-' || c == WORD_SEPARATOR;
            ok = ok && fits;
        }
        ok
    }
}

} // verus!
