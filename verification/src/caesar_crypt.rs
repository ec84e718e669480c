//! Two Caesar ciphers: one that shifts the low byte of every letter, and one
//! that turns the Latin alphabet.

use vstd::prelude::*;
use vstd::std_specs::iter::IteratorSpec;

verus! {

/// Whether `c` has the Unicode property `Alphabetic`.
pub uninterp spec fn alphabetic(c: char) -> bool;

/// `char::is_alphabetic` tells whether the character has the Unicode
/// property `Alphabetic`.
pub assume_specification[ char::is_alphabetic ](c: char) -> (r: bool)
    ensures
        r == alphabetic(c),
;

/// A character after the byte shift, where `letter` says whether it counts
/// as a letter: for a letter the low byte of its code plus the low byte of
/// `shift`, modulo 256. Other characters stay.
pub open spec fn shifted_letter(c: char, letter: bool, shift: i16) -> char {
    if letter {
        (((c as int) % 256 + (shift as int) % 256) % 256) as char
    } else {
        c
    }
}

/// A character after the byte shift, with the alphabetic characters as the
/// letters.
pub open spec fn shifted_char(c: char, shift: i16) -> char {
    shifted_letter(c, alphabetic(c), shift)
}

/// `text` with every character put through `shifted_char`.
pub open spec fn shifted(text: Seq<char>, shift: i16) -> Seq<char> {
    text.map_values(|c: char| shifted_char(c, shift))
}

/// Whether `c` is one of the 26 capital letters of the Latin alphabet.
pub open spec fn is_capital(c: char) -> bool {
    'A' <= c <= 'Z'
}

/// `c` with the small Latin letters turned into capitals.
pub open spec fn capital_of(c: char) -> char {
    if 'a' <= c <= 'z' {
        ((c as int) - 32) as char
    } else {
        c
    }
}

/// The remainder of a division that rounds towards zero.
pub open spec fn remainder(n: int, d: int) -> int {
    if n >= 0 {
        n % d
    } else {
        -((-n) % d)
    }
}

/// A Latin letter after the turn: made capital, then moved `shift` places
/// along the alphabet. Other characters stay.
pub open spec fn rotated_char(c: char, shift: i16) -> char {
    let capital = capital_of(c);
    if is_capital(capital) {
        (remainder((capital as int) - 65 + shift + 26, 26) + 65) as char
    } else {
        c
    }
}

/// `text` with every character put through `rotated_char`.
pub open spec fn rotated(text: Seq<char>, shift: i16) -> Seq<char> {
    text.map_values(|c: char| rotated_char(c, shift))
}

/// The place arithmetic of every Latin letter of `text` stays within `i16`.
pub open spec fn rotation_fits(text: Seq<char>, shift: i16) -> bool {
    forall|i: int|
        0 <= i < text.len() && is_capital(capital_of(#[trigger] text[i])) ==> (capital_of(
            text[i],
        ) as int) - 65 + shift + 26 <= i16::MAX
}

/// One character through the byte shift, where `letter` says whether it
/// counts as a letter.
pub fn shift_letter(c: char, letter: bool, shift: i16) -> (r: char)
    ensures
        r == shifted_letter(c, letter, shift),
{
    if letter {
        let step: u32 = ((shift as i32 + 32768) as u32) % 256;
        let low: u32 = (c as u32) % 256;
        let sum: u32 = (low + step) % 256;
        (sum as u8) as char
    } else {
        c
    }
}

/// One character through the turn of the alphabet.
fn rotate_char(c: char, shift: i16) -> (r: char)
    requires
        is_capital(capital_of(c)) ==> (capital_of(c) as int) - 65 + shift + 26 <= i16::MAX,
    ensures
        r == rotated_char(c, shift),
{
    let ch = if 'a' <= c && c <= 'z' {
        (((c as u32) - 32) as u8) as char
    } else {
        c
    };
    if 'A' <= ch && ch <= 'Z' {
        let a: i16 = 65;
        let place: i16 = (ch as u32) as i16 - a + shift + 26;
        let enc: u8 = (place % 26 + a) as u8;
        enc as char
    } else {
        ch
    }
}

/// Shifts every alphabetic character of `text` by `shift` in its low byte.
pub fn run_caesar_encrypt(text: &str, shift: i16) -> (result: String)
    ensures
        result@ == shifted(text@, shift),
{
    let mut result: String = String::new();
    for c in it: text.chars()
        invariant
            it.seq() == text@,
            result@.len() == it.index(),
            forall|j: int|
                0 <= j < it.index() ==> #[trigger] result@[j] == shifted_char(text@[j], shift),
    {
        result.push(shift_letter(c, c.is_alphabetic(), shift));
    }
    assert(result@ =~= shifted(text@, shift));
    result
}

/// Turns the Latin letters of `text`, made capital, `shift` places along the
/// alphabet.
pub fn caesar_rotate(text: &str, shift: i16) -> (result: String)
    requires
        rotation_fits(text@, shift),
    ensures
        result@ == rotated(text@, shift),
{
    let mut result = String::new();
    for ch in it: text.chars()
        invariant
            it.seq() == text@,
            rotation_fits(text@, shift),
            result@.len() == it.index(),
            forall|j: int|
                0 <= j < it.index() ==> #[trigger] result@[j] == rotated_char(text@[j], shift),
    {
        assert(ch == text@[it.index() as int]);
        result.push(rotate_char(ch, shift));
    }
    assert(result@ =~= rotated(text@, shift));
    result
}

} // verus!
