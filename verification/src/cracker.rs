//! Recovery of an unknown Caesar shift from the letter frequencies of a text.

use vstd::prelude::*;
use crate::bignat::BigNat;
use crate::caesar::{caesar_cipher, caesar_text};
use crate::alphabet::letter_total;
use crate::frequency::{
    as_counts, chi_squared, chi_squared_scaled, count_letters, histogram, letter_histogram,
};

verus! {

/// What `text` decrypts to if it was encrypted with the shift `guess`.
pub open spec fn candidate(text: Seq<char>, guess: int) -> Seq<char> {
    caesar_text(text, -guess)
}

/// How far the letter frequencies of the candidate for `guess` are from those
/// of English: its chi-squared statistic, scaled to a whole number. The
/// expected counts are taken from the number of letters in `text`.
pub open spec fn score_of(text: Seq<char>, guess: int) -> int {
    chi_squared_scaled(histogram(candidate(text, guess)), letter_total(text) as int)
}

/// Whether `guess` is the shift in `0..26` with the lowest score, the
/// smallest such shift where several share the lowest score.
pub open spec fn is_best_guess(text: Seq<char>, guess: int) -> bool {
    &&& 0 <= guess < 26
    &&& forall|h: int| 0 <= h < 26 ==> score_of(text, guess) <= #[trigger] score_of(text, h)
    &&& forall|h: int| 0 <= h < guess ==> score_of(text, guess) < #[trigger] score_of(text, h)
}

/// Whether `plain` and `shift` are what cracking `text` gives: for a text
/// without letters the text itself and shift 0, else the best guess and its
/// candidate.
pub open spec fn is_cracked(text: Seq<char>, plain: Seq<char>, shift: int) -> bool {
    if letter_total(text) == 0 {
        plain == text && shift == 0
    } else {
        is_best_guess(text, shift) && plain == candidate(text, shift)
    }
}

/// A text has at most one best guess.
pub proof fn lemma_best_guess_unique(text: Seq<char>, a: int, b: int)
    requires
        is_best_guess(text, a),
        is_best_guess(text, b),
    ensures
        a == b,
{
    if a < b {
        assert(score_of(text, b) < score_of(text, a));
        assert(score_of(text, a) <= score_of(text, b));
    } else if b < a {
        assert(score_of(text, a) < score_of(text, b));
        assert(score_of(text, b) <= score_of(text, a));
    }
}

/// Decrypts `text` for one guessed shift and scores the outcome.
pub fn score_candidate(text: &str, total: u64, guess: i16) -> (r: (String, BigNat))
    requires
        0 <= guess < 26,
        total == letter_total(text@),
    ensures
        r.0@ == candidate(text@, guess as int),
        r.1.value() == score_of(text@, guess as int),
{
    let decrypted = caesar_cipher(text, -guess);
    let counts = letter_histogram(decrypted.as_str());
    assert(as_counts(counts@) =~= histogram(decrypted@));
    let score = chi_squared(&counts, total);
    (decrypted, score)
}

/// Guesses the shift that `text` was encrypted with and decrypts it.
///
/// Every shift in `0..26` is tried; the one whose decryption has the lowest
/// chi-squared statistic against English wins, the first of them on a tie. A
/// text without letters is returned as it is, with shift 0.
pub fn crack_caesar(text: &str) -> (r: (String, i16))
    ensures
        is_cracked(text@, r.0@, r.1 as int),
        letter_total(text@) == 0 ==> r.0@ == text@ && r.1 == 0,
        0 <= r.1 < 26,
{
    let total = count_letters(text);
    if total == 0 {
        return (text.to_owned(), 0);
    }
    let first = score_candidate(text, total, 0);
    let mut best_text = first.0;
    let mut best_score = first.1;
    let mut best_shift: i16 = 0;
    for guess in 1i16..26i16
        invariant
            total == letter_total(text@),
            0 <= best_shift < guess,
            best_text@ == candidate(text@, best_shift as int),
            best_score.value() == score_of(text@, best_shift as int),
            forall|h: int|
                0 <= h < guess ==> score_of(text@, best_shift as int) <= #[trigger] score_of(
                    text@,
                    h,
                ),
            forall|h: int|
                0 <= h < best_shift ==> score_of(text@, best_shift as int) < #[trigger] score_of(
                    text@,
                    h,
                ),
    {
        let next = score_candidate(text, total, guess);
        if next.1.less_than(&best_score) {
            best_text = next.0;
            best_score = next.1;
            best_shift = guess;
        }
    }
    (best_text, best_shift)
}

} // verus!
