//! Rotation of a single character within its 26-letter alphabet.

use vstd::prelude::*;

verus! {

/// Code of the letter `a`.
pub const LOWER_A: u8 = 97;

/// Code of the letter `A`.
pub const UPPER_A: u8 = 65;

/// Whether `c` is one of `a..=z`.
pub open spec fn is_lower(c: char) -> bool {
    'a' <= c && c <= 'z'
}

/// Whether `c` is one of `A..=Z`.
pub open spec fn is_upper(c: char) -> bool {
    'A' <= c && c <= 'Z'
}

/// Whether `c` is an ASCII letter. Only these are ever rotated.
pub open spec fn is_letter(c: char) -> bool {
    is_lower(c) || is_upper(c)
}

/// Zero-based position of a letter within the alphabet of its own case.
pub open spec fn letter_index(c: char) -> int
    recommends
        is_letter(c),
{
    if is_lower(c) {
        c as int - 'a' as int
    } else {
        c as int - 'A' as int
    }
}

/// How many characters of `text` are ASCII letters.
pub open spec fn letter_total(text: Seq<char>) -> nat
    decreases text.len(),
{
    if text.len() == 0 {
        0
    } else {
        letter_total(text.drop_last()) + if is_letter(text.last()) {
            1nat
        } else {
            0nat
        }
    }
}

/// A shift reduced into `0..26` with the floor modulus.
pub open spec fn normalize(shift: int) -> int {
    shift % 26
}

/// The character `c` rotated by `shift` positions within its own case;
/// a character that is not an ASCII letter is left as it is.
pub open spec fn rotate(c: char, shift: int) -> char {
    if is_lower(c) {
        ('a' as int + normalize(letter_index(c) + shift)) as char
    } else if is_upper(c) {
        ('A' as int + normalize(letter_index(c) + shift)) as char
    } else {
        c
    }
}

/// Tells whether `c` is an ASCII letter.
pub fn is_ascii_letter(c: char) -> (r: bool)
    ensures
        r == is_letter(c),
{
    ('a' <= c && c <= 'z') || ('A' <= c && c <= 'Z')
}

/// The position of `c` within the alphabet of its own case, if it is an ASCII
/// letter.
pub fn letter_position(c: char) -> (r: Option<u8>)
    ensures
        r is Some == is_letter(c),
        r matches Some(p) ==> p as int == letter_index(c) && p < 26,
{
    if 'a' <= c && c <= 'z' {
        Some((c as u8) - LOWER_A)
    } else if 'A' <= c && c <= 'Z' {
        Some((c as u8) - UPPER_A)
    } else {
        None
    }
}

/// Reduces a shift into `0..26`.
pub fn normalize_shift(shift: i16) -> (r: u8)
    ensures
        r as int == normalize(shift as int),
        r < 26,
{
    let wide: i32 = shift as i32;
    let rem: i32 = wide % 26;
    if rem < 0 {
        (rem + 26) as u8
    } else {
        rem as u8
    }
}

/// Rotates `c` by a shift that is already reduced into `0..26`.
pub fn rotate_char(c: char, step: u8) -> (r: char)
    requires
        step < 26,
    ensures
        r == rotate(c, step as int),
{
    if 'a' <= c && c <= 'z' {
        let pos: u8 = (c as u8) - LOWER_A;
        let moved: u8 = (pos + step) % 26;
        (LOWER_A + moved) as char
    } else if 'A' <= c && c <= 'Z' {
        let pos: u8 = (c as u8) - UPPER_A;
        let moved: u8 = (pos + step) % 26;
        (UPPER_A + moved) as char
    } else {
        c
    }
}

/// Rotates `c` by `shift` positions within its own case.
pub fn shift_char(c: char, shift: i16) -> (r: char)
    ensures
        r == rotate(c, shift as int),
{
    let step = normalize_shift(shift);
    proof {
        lemma_rotate_normalized(c, shift as int);
    }
    rotate_char(c, step)
}

/// Rotating by a shift and by its reduction into `0..26` is the same.
pub proof fn lemma_rotate_normalized(c: char, shift: int)
    ensures
        rotate(c, shift) == rotate(c, normalize(shift)),
{
    if is_letter(c) {
        let p = letter_index(c);
        assert((p + shift) % 26 == (p + shift % 26) % 26) by (nonlinear_arith);
    }
}

/// Rotation keeps the case of a letter and never turns another character into one.
pub proof fn lemma_rotate_keeps_kind(c: char, shift: int)
    ensures
        is_lower(rotate(c, shift)) == is_lower(c),
        is_upper(rotate(c, shift)) == is_upper(c),
        is_letter(c) ==> letter_index(rotate(c, shift)) == normalize(letter_index(c) + shift),
{
}

/// Rotating back by the same shift restores the character.
pub proof fn lemma_rotate_inverse(c: char, shift: int)
    ensures
        rotate(rotate(c, shift), -shift) == c,
{
    if is_letter(c) {
        let p = letter_index(c);
        lemma_rotate_keeps_kind(c, shift);
        assert(((p + shift) % 26 - shift) % 26 == p) by (nonlinear_arith)
            requires
                0 <= p < 26,
        ;
    }
}

} // verus!
