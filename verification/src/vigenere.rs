//! The Vigenere cipher: each letter of a text is shifted by the next letter of
//! a repeating keyword.

use vstd::prelude::*;
use crate::alphabet::{
    is_ascii_letter, is_letter, lemma_rotate_inverse, lemma_rotate_keeps_kind,
    lemma_rotate_normalized, letter_index, letter_position, letter_total, normalize, rotate,
    rotate_char,
};

verus! {

/// The key material of a keyword: the alphabet position of each of its ASCII
/// letters, in order. Other characters of the keyword add nothing.
pub open spec fn key_shifts(keyword: Seq<char>) -> Seq<int>
    decreases keyword.len(),
{
    if keyword.len() == 0 {
        Seq::empty()
    } else if is_letter(keyword.last()) {
        key_shifts(keyword.drop_last()).push(letter_index(keyword.last()))
    } else {
        key_shifts(keyword.drop_last())
    }
}

/// The shift for a letter before which `used` letters have taken key material:
/// the key repeats, and decryption shifts backwards.
pub open spec fn key_shift_at(key: Seq<int>, used: int, decrypt: bool) -> int
    recommends
        key.len() > 0,
{
    let k = key[used % (key.len() as int)];
    if decrypt {
        -k
    } else {
        k
    }
}

/// What the character at position `i` of `text` becomes. A letter is shifted
/// by the key entry that the count of letters before it selects; any other
/// character stays and uses up no key material. With an empty key every
/// character stays.
pub open spec fn vigenere_char(text: Seq<char>, key: Seq<int>, decrypt: bool, i: int) -> char {
    if is_letter(text[i]) && key.len() > 0 {
        rotate(text[i], key_shift_at(key, letter_total(text.take(i)) as int, decrypt))
    } else {
        text[i]
    }
}

/// The text that the Vigenere cipher turns `text` into under `keyword`.
pub open spec fn vigenere_text(text: Seq<char>, keyword: Seq<char>, decrypt: bool) -> Seq<char> {
    Seq::new(text.len(), |i: int| vigenere_char(text, key_shifts(keyword), decrypt, i))
}

/// Collects the key material of `keyword`.
pub fn keyword_shifts(keyword: &str) -> (key: Vec<u8>)
    ensures
        key@.len() == key_shifts(keyword@).len(),
        forall|j: int| 0 <= j < key@.len() ==> key@[j] as int == key_shifts(keyword@)[j],
        forall|j: int| 0 <= j < key@.len() ==> key@[j] < 26,
{
    let mut key: Vec<u8> = Vec::new();
    for c in it: keyword.chars()
        invariant
            it.seq() == keyword@,
            key@.len() == key_shifts(keyword@.take(it.index())).len(),
            forall|j: int|
                0 <= j < key@.len() ==> key@[j] as int == key_shifts(
                    keyword@.take(it.index()),
                )[j],
            forall|j: int| 0 <= j < key@.len() ==> key@[j] < 26,
    {
        assert(keyword@.take(it.index() + 1).drop_last() =~= keyword@.take(it.index()));
        match letter_position(c) {
            Some(p) => {
                key.push(p);
            },
            None => {},
        }
    }
    assert(keyword@.take(keyword@.len() as int) =~= keyword@);
    key
}

/// Applies the Vigenere cipher to `text`.
///
/// Each ASCII letter of `text` takes the next letter of the keyword, which
/// repeats without end, and is shifted forwards by that letter's alphabet
/// position, or backwards when `decrypt` is set. Characters that are not
/// letters are kept and take nothing from the keyword; so are all characters
/// when the keyword holds no letter.
pub fn vigenere_cipher(text: &str, keyword: &str, decrypt: bool) -> (out: String)
    ensures
        out@ == vigenere_text(text@, keyword@, decrypt),
{
    let key = keyword_shifts(keyword);
    let key_len = key.len();
    let mut out = String::new();
    let mut cursor: usize = 0;
    let ghost shifts = key_shifts(keyword@);
    proof {
        assert(letter_total(text@.take(0)) == 0);
        if key_len > 0 {
            assert(0int % (key_len as int) == 0) by (nonlinear_arith)
                requires
                    key_len > 0,
            ;
        }
    }
    for c in it: text.chars()
        invariant
            it.seq() == text@,
            shifts == key_shifts(keyword@),
            key_len == key@.len(),
            key@.len() == shifts.len(),
            forall|j: int| 0 <= j < key@.len() ==> #[trigger] key@[j] as int == shifts[j],
            forall|j: int| 0 <= j < key@.len() ==> #[trigger] key@[j] < 26,
            key_len > 0 ==> cursor as int == (letter_total(text@.take(it.index())) as int)
                % (key_len as int),
            out@ == vigenere_text(text@, keyword@, decrypt).take(it.index()),
    {
        let ghost i = it.index();
        let ghost used = letter_total(text@.take(i)) as int;
        assert(text@.take(i + 1).drop_last() =~= text@.take(i));
        if key_len > 0 && is_ascii_letter(c) {
            let k: u8 = key[cursor];
            let step: u8 = if decrypt && k != 0 {
                26 - k
            } else {
                k
            };
            proof {
                let shift = key_shift_at(shifts, used, decrypt);
                lemma_rotate_normalized(c, shift);
                assert(step as int == normalize(shift));
                lemma_cursor_step(used, key_len as int);
            }
            out.push(rotate_char(c, step));
            cursor = if cursor + 1 == key_len {
                0
            } else {
                cursor + 1
            };
        } else {
            out.push(c);
        }
        assert(out@ =~= vigenere_text(text@, keyword@, decrypt).take(i + 1));
    }
    assert(vigenere_text(text@, keyword@, decrypt).take(text@.len() as int) =~= vigenere_text(
        text@,
        keyword@,
        decrypt,
    ));
    out
}

/// The cipher keeps the length of a text, and a letter stays a letter.
pub proof fn lemma_vigenere_keeps_letters(text: Seq<char>, keyword: Seq<char>, decrypt: bool)
    ensures
        vigenere_text(text, keyword, decrypt).len() == text.len(),
        forall|i: int|
            0 <= i < text.len() ==> is_letter(#[trigger] vigenere_text(text, keyword, decrypt)[i])
                == is_letter(text[i]),
        forall|i: int|
            0 <= i < text.len() && !is_letter(text[i]) ==> #[trigger] vigenere_text(
                text,
                keyword,
                decrypt,
            )[i] == text[i],
{
    let key = key_shifts(keyword);
    assert forall|i: int| 0 <= i < text.len() implies is_letter(
        #[trigger] vigenere_text(text, keyword, decrypt)[i],
    ) == is_letter(text[i]) by {
        if is_letter(text[i]) && key.len() > 0 {
            lemma_rotate_keeps_kind(
                text[i],
                key_shift_at(key, letter_total(text.take(i)) as int, decrypt),
            );
        }
    }
}

/// Texts of one length with letters at the same positions have as many
/// letters in every prefix.
pub proof fn lemma_letter_total_same_shape(a: Seq<char>, b: Seq<char>, n: int)
    requires
        a.len() == b.len(),
        0 <= n <= a.len(),
        forall|i: int| 0 <= i < a.len() ==> is_letter(a[i]) == is_letter(b[i]),
    ensures
        letter_total(a.take(n)) == letter_total(b.take(n)),
    decreases n,
{
    if n > 0 {
        lemma_letter_total_same_shape(a, b, n - 1);
        assert(a.take(n).drop_last() =~= a.take(n - 1));
        assert(b.take(n).drop_last() =~= b.take(n - 1));
    }
}

/// Applying the cipher in one direction and then in the other, under the same
/// keyword, gives the text back.
pub proof fn lemma_vigenere_round_trip(text: Seq<char>, keyword: Seq<char>, decrypt: bool)
    ensures
        vigenere_text(vigenere_text(text, keyword, decrypt), keyword, !decrypt) == text,
{
    let key = key_shifts(keyword);
    let there = vigenere_text(text, keyword, decrypt);
    let back = vigenere_text(there, keyword, !decrypt);
    lemma_vigenere_keeps_letters(text, keyword, decrypt);
    assert forall|i: int| 0 <= i < text.len() implies back[i] == text[i] by {
        lemma_letter_total_same_shape(there, text, i);
        if is_letter(text[i]) && key.len() > 0 {
            let used = letter_total(text.take(i)) as int;
            let shift = key_shift_at(key, used, decrypt);
            assert(key_shift_at(key, used, !decrypt) == -shift);
            lemma_rotate_inverse(text[i], shift);
        }
    }
    assert(back =~= text);
}

/// Stepping a cursor that wraps at `len` keeps it equal to the count modulo `len`.
proof fn lemma_cursor_step(used: int, len: int)
    requires
        0 <= used,
        0 < len,
    ensures
        (used + 1) % len == if used % len + 1 == len {
            0
        } else {
            used % len + 1
        },
{
    assert((used + 1) % len == if used % len + 1 == len {
        0
    } else {
        used % len + 1
    }) by (nonlinear_arith)
        requires
            0 <= used,
            0 < len,
    ;
}

} // verus!
