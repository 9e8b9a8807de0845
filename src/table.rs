//! The table between characters and their Morse codes.
//!
//! A dot/dash code is held as a key: a leading 1 bit followed by one bit per
//! element, most significant first, 0 for a dot and 1 for a dash. So `.-`
//! is `0b101`. The key fixes the code, and tells codes of different lengths
//! apart. The space stands apart: its code is the word separator `/`.
use vstd::prelude::*;

verus! {

/// The word separator: the code of the space character.
pub const WORD_SEPARATOR: char = '/';

/// The key of the dot/dash code of `c`, or 0 where `c` has no such code.
/// Only upper-case letters are keys of the table.
pub open spec fn key_of(c: char) -> nat {
    match c {
        'A' => 0b101,  // .-
        'B' => 0b11000,  // -...
        'C' => 0b11010,  // -.-.
        'D' => 0b1100,  // -..
        'E' => 0b10,  // .
        'F' => 0b10010,  // ..-.
        'G' => 0b1110,  // --.
        'H' => 0b10000,  // ....
        'I' => 0b100,  // ..
        'J' => 0b10111,  // .---
        'K' => 0b1101,  // -.-
        'L' => 0b10100,  // .-..
        'M' => 0b111,  // --
        'N' => 0b110,  // -.
        'O' => 0b1111,  // ---
        'P' => 0b10110,  // .--.
        'Q' => 0b11101,  // --.-
        'R' => 0b1010,  // .-.
        'S' => 0b1000,  // ...
        'T' => 0b11,  // -
        'U' => 0b1001,  // ..-
        'V' => 0b10001,  // ...-
        'W' => 0b1011,  // .--
        'X' => 0b11001,  // -..-
        'Y' => 0b11011,  // -.--
        'Z' => 0b11100,  // --..
        '0' => 0b111111,  // -----
        '1' => 0b101111,  // .----
        '2' => 0b100111,  // ..---
        '3' => 0b100011,  // ...--
        '4' => 0b100001,  // ....-
        '5' => 0b100000,  // .....
        '6' => 0b110000,  // -....
        '7' => 0b111000,  // --...
        '8' => 0b111100,  // ---..
        '9' => 0b111110,  // ----.
        '.' => 0b1010101,  // .-.-.-
        ',' => 0b1110011,  // --..--
        '?' => 0b1001100,  // ..--..
        '!' => 0b1101011,  // -.-.--
        '/' => 0b110010,  // -..-.
        '(' => 0b110110,  // -.--.
        ')' => 0b1101101,  // -.--.-
        '&' => 0b101000,  // .-...
        ':' => 0b1111000,  // ---...
        ';' => 0b1101010,  // -.-.-.
        '=' => 0b110001,  // -...-
        '+' => 0b101010,  // .-.-.
        '-' => 0b1100001,  // -....-
        '_' => 0b1001101,  // ..--.-
        '"' => 0b1010010,  // .-..-.
        '$' => 0b10001001,  // ...-..-
        '@' => 0b1011010,  // .--.-.
        _ => 0,
    }
}

/// The elements spelled by a key: the bits after the leading 1, in order.
pub open spec fn elements(key: nat) -> Seq<char>
    decreases key,
{
    if key <= 1 {
        Seq::empty()
    } else {
        elements(key / 2).push(if key % 2 == 0 { '.' } else { '-' })
    }
}

/// The code of `c` in the table, if it has one.
pub open spec fn code_of(c: char) -> Option<Seq<char>> {
    if c == ' ' {
        Some(seq![WORD_SEPARATOR])
    } else if key_of(c) != 0 {
        Some(elements(key_of(c)))
    } else {
        None
    }
}

/// The character whose code is `code`, if one has it.
pub open spec fn char_of(code: Seq<char>) -> Option<char> {
    if exists|c: char| code_of(c) == Some(code) {
        Some(choose|c: char| code_of(c) == Some(code))
    } else {
        None
    }
}

/// `c` is a dot or a dash.
pub open spec fn is_element(c: char) -> bool {
    c == '.' || c == '-'
}

/// The key of a sequence of dots and dashes.
pub open spec fn key_of_elements(s: Seq<char>) -> nat
    decreases s.len(),
{
    if s.len() == 0 {
        1
    } else {
        2 * key_of_elements(s.drop_last()) + if s.last() == '.' { 0nat } else { 1nat }
    }
}

/// A key names the same elements back: reading the elements of a key gives that key.
pub proof fn lemma_key_of_elements(k: nat)
    requires
        k >= 1,
    ensures
        key_of_elements(elements(k)) == k,
        forall|i: int| 0 <= i < elements(k).len() ==> is_element(#[trigger] elements(k)[i]),
    decreases k,
{
    if k > 1 {
        lemma_key_of_elements(k / 2);
        assert(elements(k).drop_last() == elements(k / 2));
    }
}

/// A sequence of dots and dashes is spelled back by its key.
pub proof fn lemma_elements_of_key(s: Seq<char>)
    requires
        forall|i: int| 0 <= i < s.len() ==> is_element(#[trigger] s[i]),
    ensures
        elements(key_of_elements(s)) == s,
        key_of_elements(s) >= 1,
    decreases s.len(),
{
    if s.len() > 0 {
        let p = s.drop_last();
        assert forall|i: int| 0 <= i < p.len() implies is_element(#[trigger] p[i]) by {
            assert(p[i] == s[i]);
        }
        lemma_elements_of_key(p);
        let k = key_of_elements(s);
        assert(k / 2 == key_of_elements(p));
        assert(s == p.push(s.last()));
    }
}

/// No two characters share a key.
pub proof fn lemma_key_of_injective(a: char, b: char)
    requires
        key_of(a) == key_of(b),
        key_of(a) != 0,
    ensures
        a == b,
{
}

/// No two characters share a code.
pub proof fn lemma_code_of_injective(a: char, b: char)
    requires
        code_of(a) is Some,
        code_of(a) == code_of(b),
    ensures
        a == b,
{
    if a == ' ' || b == ' ' {
        let (x, y) = if a == ' ' { (a, b) } else { (b, a) };
        if y != ' ' {
            lemma_key_of_elements(key_of(y));
            assert(elements(key_of(y))[0] == WORD_SEPARATOR);
        }
    } else {
        lemma_key_of_elements(key_of(a));
        lemma_key_of_elements(key_of(b));
        lemma_key_of_injective(a, b);
    }
}

/// Each code of the table is read back as its character.
pub proof fn lemma_char_of_code(c: char)
    requires
        code_of(c) is Some,
    ensures
        char_of(code_of(c).unwrap()) == Some(c),
{
    let code = code_of(c).unwrap();
    assert(exists|x: char| code_of(x) == Some(code));
    let d = choose|x: char| code_of(x) == Some(code);
    lemma_code_of_injective(c, d);
}

/// The key of the code of `c`, or 0 where `c` has no dot/dash code.
pub fn code_key(c: char) -> (k: u32)
    ensures
        k == key_of(c),
{
    match c {
        'A' => 0b101,  // .-
        'B' => 0b11000,  // -...
        'C' => 0b11010,  // -.-.
        'D' => 0b1100,  // -..
        'E' => 0b10,  // .
        'F' => 0b10010,  // ..-.
        'G' => 0b1110,  // --.
        'H' => 0b10000,  // ....
        'I' => 0b100,  // ..
        'J' => 0b10111,  // .---
        'K' => 0b1101,  // -.-
        'L' => 0b10100,  // .-..
        'M' => 0b111,  // --
        'N' => 0b110,  // -.
        'O' => 0b1111,  // ---
        'P' => 0b10110,  // .--.
        'Q' => 0b11101,  // --.-
        'R' => 0b1010,  // .-.
        'S' => 0b1000,  // ...
        'T' => 0b11,  // -
        'U' => 0b1001,  // ..-
        'V' => 0b10001,  // ...-
        'W' => 0b1011,  // .--
        'X' => 0b11001,  // -..-
        'Y' => 0b11011,  // -.--
        'Z' => 0b11100,  // --..
        '0' => 0b111111,  // -----
        '1' => 0b101111,  // .----
        '2' => 0b100111,  // ..---
        '3' => 0b100011,  // ...--
        '4' => 0b100001,  // ....-
        '5' => 0b100000,  // .....
        '6' => 0b110000,  // -....
        '7' => 0b111000,  // --...
        '8' => 0b111100,  // ---..
        '9' => 0b111110,  // ----.
        '.' => 0b1010101,  // .-.-.-
        ',' => 0b1110011,  // --..--
        '?' => 0b1001100,  // ..--..
        '!' => 0b1101011,  // -.-.--
        '/' => 0b110010,  // -..-.
        '(' => 0b110110,  // -.--.
        ')' => 0b1101101,  // -.--.-
        '&' => 0b101000,  // .-...
        ':' => 0b1111000,  // ---...
        ';' => 0b1101010,  // -.-.-.
        '=' => 0b110001,  // -...-
        '+' => 0b101010,  // .-.-.
        '-' => 0b1100001,  // -....-
        '_' => 0b1001101,  // ..--.-
        '"' => 0b1010010,  // .-..-.
        '$' => 0b10001001,  // ...-..-
        '@' => 0b1011010,  // .--.-.
        _ => 0,
    }
}

/// The character whose dot/dash code has key `k`, if one has it.
pub fn char_of_key(k: u32) -> (r: Option<char>)
    ensures
        match r {
            Some(c) => key_of(c) == k && k != 0,
            None => forall|c: char| key_of(c) != k || k == 0,
        },
{
    match k {
        0b101 => Some('A'),  // .-
        0b11000 => Some('B'),  // -...
        0b11010 => Some('C'),  // -.-.
        0b1100 => Some('D'),  // -..
        0b10 => Some('E'),  // .
        0b10010 => Some('F'),  // ..-.
        0b1110 => Some('G'),  // --.
        0b10000 => Some('H'),  // ....
        0b100 => Some('I'),  // ..
        0b10111 => Some('J'),  // .---
        0b1101 => Some('K'),  // -.-
        0b10100 => Some('L'),  // .-..
        0b111 => Some('M'),  // --
        0b110 => Some('N'),  // -.
        0b1111 => Some('O'),  // ---
        0b10110 => Some('P'),  // .--.
        0b11101 => Some('Q'),  // --.-
        0b1010 => Some('R'),  // .-.
        0b1000 => Some('S'),  // ...
        0b11 => Some('T'),  // -
        0b1001 => Some('U'),  // ..-
        0b10001 => Some('V'),  // ...-
        0b1011 => Some('W'),  // .--
        0b11001 => Some('X'),  // -..-
        0b11011 => Some('Y'),  // -.--
        0b11100 => Some('Z'),  // --..
        0b111111 => Some('0'),  // -----
        0b101111 => Some('1'),  // .----
        0b100111 => Some('2'),  // ..---
        0b100011 => Some('3'),  // ...--
        0b100001 => Some('4'),  // ....-
        0b100000 => Some('5'),  // .....
        0b110000 => Some('6'),  // -....
        0b111000 => Some('7'),  // --...
        0b111100 => Some('8'),  // ---..
        0b111110 => Some('9'),  // ----.
        0b1010101 => Some('.'),  // .-.-.-
        0b1110011 => Some(','),  // --..--
        0b1001100 => Some('?'),  // ..--..
        0b1101011 => Some('!'),  // -.-.--
        0b110010 => Some('/'),  // -..-.
        0b110110 => Some('('),  // -.--.
        0b1101101 => Some(')'),  // -.--.-
        0b101000 => Some('&'),  // .-...
        0b1111000 => Some(':'),  // ---...
        0b1101010 => Some(';'),  // -.-.-.
        0b110001 => Some('='),  // -...-
        0b101010 => Some('+'),  // .-.-.
        0b1100001 => Some('-'),  // -....-
        0b1001101 => Some('_'),  // ..--.-
        0b1010010 => Some('"'),  // .-..-.
        0b10001001 => Some('$'),  // ...-..-
        0b1011010 => Some('@'),  // .--.-.
        _ => None,
    }
}

} // verus!
