//! The Caesar cipher: one fixed shift applied to every letter of a text.

use vstd::prelude::*;
use crate::alphabet::{
    is_letter, lemma_rotate_inverse, lemma_rotate_normalized, normalize, normalize_shift, rotate,
    rotate_char,
};

verus! {

/// The text with every character rotated by `shift`.
pub open spec fn caesar_text(text: Seq<char>, shift: int) -> Seq<char> {
    Seq::new(text.len(), |i: int| rotate(text[i], shift))
}

/// Applies one reduced shift to every character of `text`.
pub fn rotate_text(text: &str, step: u8) -> (out: String)
    requires
        step < 26,
    ensures
        out@ == caesar_text(text@, step as int),
{
    let mut out = String::new();
    for c in it: text.chars()
        invariant
            step < 26,
            it.seq() == text@,
            out@ == caesar_text(text@.take(it.index()), step as int),
    {
        let r = rotate_char(c, step);
        out.push(r);
        assert(out@ =~= caesar_text(text@.take(it.index() + 1), step as int));
    }
    assert(text@.take(text@.len() as int) =~= text@);
    out
}

/// Encrypts `text` with the Caesar cipher: every ASCII letter is rotated by
/// `shift` within its own case, every other character is kept.
pub fn caesar_cipher(text: &str, shift: i16) -> (out: String)
    ensures
        out@ == caesar_text(text@, shift as int),
        out@.len() == text@.len(),
        forall|i: int| 0 <= i < text@.len() && !is_letter(text@[i]) ==> out@[i] == text@[i],
{
    let step = normalize_shift(shift);
    proof {
        lemma_caesar_normalized(text@, shift as int);
    }
    rotate_text(text, step)
}

/// Decrypts `text`: the Caesar cipher applied with the shift negated.
pub fn caesar_decrypt(text: &str, shift: i16) -> (out: String)
    ensures
        out@ == caesar_text(text@, -(shift as int)),
{
    let step = normalize_shift(shift);
    let back: u8 = if step == 0 { 0 } else { 26 - step };
    proof {
        assert(back as int == normalize(-(shift as int))) by (nonlinear_arith)
            requires
                step as int == (shift as int) % 26,
                back as int == if step == 0 { 0int } else { 26 - step },
        ;
        lemma_caesar_normalized(text@, -(shift as int));
    }
    rotate_text(text, back)
}

/// A shift and its reduction into `0..26` give the same ciphertext.
pub proof fn lemma_caesar_normalized(text: Seq<char>, shift: int)
    ensures
        caesar_text(text, shift) == caesar_text(text, normalize(shift)),
{
    assert forall|i: int| 0 <= i < text.len() implies rotate(text[i], shift) == rotate(
        text[i],
        normalize(shift),
    ) by {
        lemma_rotate_normalized(text[i], shift);
    }
    assert(caesar_text(text, shift) =~= caesar_text(text, normalize(shift)));
}

/// Shifts that differ by a multiple of 26 give the same ciphertext.
pub proof fn lemma_caesar_periodic(text: Seq<char>, shift: int, turns: int)
    ensures
        caesar_text(text, shift + 26 * turns) == caesar_text(text, shift),
{
    assert((shift + 26 * turns) % 26 == shift % 26) by (nonlinear_arith);
    lemma_caesar_normalized(text, shift + 26 * turns);
    lemma_caesar_normalized(text, shift);
}

/// Decrypting with the shift a text was encrypted with gives the text back,
/// and encryption keeps the length and every character that is not a letter.
pub proof fn lemma_caesar_round_trip(text: Seq<char>, shift: int)
    ensures
        caesar_text(caesar_text(text, shift), -shift) == text,
        caesar_text(text, shift).len() == text.len(),
        forall|i: int|
            0 <= i < text.len() && !is_letter(text[i]) ==> caesar_text(text, shift)[i] == text[i],
{
    assert forall|i: int| 0 <= i < text.len() implies rotate(rotate(text[i], shift), -shift)
        == text[i] by {
        lemma_rotate_inverse(text[i], shift);
    }
    assert(caesar_text(caesar_text(text, shift), -shift) =~= text);
}

} // verus!
