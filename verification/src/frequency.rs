//! Letter frequencies: the reference profile of English, the observed counts
//! of a text, and the chi-squared statistic that measures how far apart they are.
//!
//! All of it is exact integer arithmetic. A reference frequency is held as
//! parts per `SCALE`, and the statistic is taken times a positive constant, so
//! that it is a whole number and its order is that of the statistic itself.

use vstd::prelude::*;
use crate::alphabet::{is_ascii_letter, is_letter, letter_index, letter_position, letter_total};
use crate::bignat::BigNat;

verus! {

/// The unit of the reference profile: a frequency of `p / SCALE`.
pub const SCALE: u64 = 100_000;

/// Relative frequency of each letter in English text, `a` first, in parts per
/// `SCALE`.
pub open spec fn reference_parts() -> Seq<int> {
    seq![
        8167, 1492, 2782, 4253, 12702, 2228, 2015, 6094, 6966, 153, 772, 4025, 2406,
        6749, 7507, 1929, 95, 5987, 6327, 9056, 2758, 978, 2360, 150, 1974, 74,
    ]
}

/// The reference frequency of the letter at position `i`, in parts per `SCALE`.
pub fn reference_part(i: usize) -> (r: u64)
    requires
        i < 26,
    ensures
        r == reference_parts()[i as int],
        0 < r <= 12702,
{
    let table: [u64; 26] = [
        8167, 1492, 2782, 4253, 12702, 2228, 2015, 6094, 6966, 153, 772, 4025, 2406,
        6749, 7507, 1929, 95, 5987, 6327, 9056, 2758, 978, 2360, 150, 1974, 74,
    ];
    table[i]
}

/// How many characters of `text` are the letter at position `letter`, in
/// either case.
pub open spec fn letter_count(text: Seq<char>, letter: int) -> nat
    decreases text.len(),
{
    if text.len() == 0 {
        0
    } else {
        letter_count(text.drop_last(), letter) + if is_letter(text.last()) && letter_index(
            text.last(),
        ) == letter {
            1nat
        } else {
            0nat
        }
    }
}

/// The observed count of each of the 26 letters in `text`.
pub open spec fn histogram(text: Seq<char>) -> Seq<int> {
    Seq::new(26, |i: int| letter_count(text, i) as int)
}

/// Counts the ASCII letters of `text`.
pub fn count_letters(text: &str) -> (total: u64)
    ensures
        total == letter_total(text@),
{
    let len = text.unicode_len();
    let mut total: u64 = 0;
    for c in it: text.chars()
        invariant
            it.seq() == text@,
            text@.len() == len,
            total == letter_total(text@.take(it.index())),
            total <= it.index(),
    {
        assert(text@.take(it.index() + 1).drop_last() =~= text@.take(it.index()));
        if is_ascii_letter(c) {
            total += 1;
        }
    }
    assert(text@.take(text@.len() as int) =~= text@);
    total
}

/// Counts each of the 26 letters in `text`, folding the two cases together.
pub fn letter_histogram(text: &str) -> (counts: [u64; 26])
    ensures
        forall|k: int| 0 <= k < 26 ==> counts@[k] == letter_count(text@, k),
{
    let len = text.unicode_len();
    let mut counts: [u64; 26] = [0u64; 26];
    for c in it: text.chars()
        invariant
            it.seq() == text@,
            text@.len() == len,
            forall|k: int|
                0 <= k < 26 ==> counts@[k] == letter_count(text@.take(it.index()), k)
                    && counts@[k] <= it.index(),
    {
        assert(text@.take(it.index() + 1).drop_last() =~= text@.take(it.index()));
        match letter_position(c) {
            Some(p) => {
                let slot: usize = p as usize;
                let seen: u64 = counts[slot];
                counts.set(slot, seen + 1);
            },
            None => {},
        }
    }
    assert(text@.take(text@.len() as int) =~= text@);
    counts
}

/// The product of the reference parts below position `k`, that of `skip` left out.
pub open spec fn weight_upto(skip: int, k: nat) -> int
    decreases k,
{
    if k == 0 {
        1
    } else {
        weight_upto(skip, (k - 1) as nat) * if k - 1 == skip {
            1
        } else {
            reference_parts()[k - 1]
        }
    }
}

/// The product of all reference parts but that of the letter at position `i`:
/// what a fraction over part `i` is multiplied by to stand over the product of
/// all 26 parts.
pub open spec fn weight(i: int) -> int {
    weight_upto(i, 26)
}

/// The product of the reference parts below position `k`.
pub open spec fn product_upto(k: nat) -> int
    decreases k,
{
    if k == 0 {
        1
    } else {
        product_upto((k - 1) as nat) * reference_parts()[k - 1]
    }
}

/// Every reference part is positive, so with letters in the text no expected
/// count is zero.
pub proof fn lemma_parts_positive(i: int)
    requires
        0 <= i < 26,
    ensures
        0 < reference_parts()[i] <= 12702,
{
}

/// A weight is positive, and a weight times the part it leaves out is the
/// product of all 26 parts: the common denominator of the statistic's terms.
pub proof fn lemma_weight_is_cofactor(i: int)
    requires
        0 <= i < 26,
    ensures
        weight(i) > 0,
        weight(i) * reference_parts()[i] == product_upto(26),
{
    lemma_weight_completes(i, 26);
}

/// The products below position `k`, with and without the part of `i`.
proof fn lemma_weight_completes(i: int, k: nat)
    requires
        0 <= i < 26,
        k <= 26,
    ensures
        weight_upto(i, k) > 0,
        product_upto(k) == weight_upto(i, k) * if i < k {
            reference_parts()[i]
        } else {
            1
        },
    decreases k,
{
    if k > 0 {
        let j = k - 1;
        lemma_weight_completes(i, j as nat);
        lemma_parts_positive(j);
        let w = weight_upto(i, j as nat);
        let part = reference_parts()[j];
        let kept = reference_parts()[i];
        if j == i {
            assert(w * 1 == w) by (nonlinear_arith);
        } else if i < j {
            assert(w * part > 0) by (nonlinear_arith)
                requires
                    w > 0,
                    part > 0,
            ;
            assert((w * kept) * part == (w * part) * kept) by (nonlinear_arith);
        } else {
            assert(w * part > 0) by (nonlinear_arith)
                requires
                    w > 0,
                    part > 0,
            ;
            assert((w * 1) * part == (w * part) * 1) by (nonlinear_arith);
        }
    }
}

/// Observed minus expected count of one letter, times `SCALE`. The expected
/// count is `part * total / SCALE`.
pub open spec fn deviation(observed: int, part: int, total: int) -> int {
    SCALE * observed - part * total
}

/// The term of the letter at position `i` in the scaled statistic. A letter
/// whose expected count is zero has no term.
pub open spec fn chi_term(counts: Seq<int>, total: int, i: int) -> int {
    let part = reference_parts()[i];
    if part * total == 0 {
        0
    } else {
        weight(i) * (deviation(counts[i], part, total) * deviation(counts[i], part, total))
    }
}

/// The terms of the letters below position `k`, added up.
pub open spec fn chi_upto(counts: Seq<int>, total: int, k: nat) -> int
    decreases k,
{
    if k == 0 {
        0
    } else {
        chi_upto(counts, total, (k - 1) as nat) + chi_term(counts, total, k - 1)
    }
}

/// The chi-squared statistic of observed `counts` against the reference
/// profile, where `total` letters were seen: the sum over the 26 letters of
/// `(observed - expected)^2 / expected`, times `SCALE * total` and the product
/// of all reference parts. For one `total` that factor is one positive
/// constant, so a smaller value here is a smaller statistic.
pub open spec fn chi_squared_scaled(counts: Seq<int>, total: int) -> int {
    chi_upto(counts, total, 26)
}

/// The counts of a histogram as mathematical integers.
pub open spec fn as_counts(counts: Seq<u64>) -> Seq<int> {
    Seq::new(counts.len(), |i: int| counts[i] as int)
}

/// Computes `weight(i)`.
pub fn reference_weight(i: usize) -> (w: BigNat)
    requires
        i < 26,
    ensures
        w.value() == weight(i as int),
{
    let mut w = BigNat::from_u64(1);
    for j in 0..26
        invariant
            i < 26,
            w.value() == weight_upto(i as int, j as nat),
    {
        if j != i {
            let part = reference_part(j);
            w = w.mul_u64(part);
        } else {
            assert(w.value() * 1 == w.value());
        }
    }
    w
}

/// Computes the scaled chi-squared statistic of a histogram against the
/// reference profile, where `total` letters were seen.
pub fn chi_squared(counts: &[u64; 26], total: u64) -> (score: BigNat)
    ensures
        score.value() == chi_squared_scaled(as_counts(counts@), total as int),
{
    let mut score = BigNat::from_u64(0);
    for i in 0..26
        invariant
            score.value() == chi_upto(as_counts(counts@), total as int, i as nat),
    {
        let part: u64 = reference_part(i);
        let observed: u64 = counts[i];
        assert(part * total <= 12702 * 0xffff_ffff_ffff_ffff) by (nonlinear_arith)
            requires
                part <= 12702,
                total <= 0xffff_ffff_ffff_ffff,
        ;
        let expected: u128 = (part as u128) * (total as u128);
        if expected != 0 {
            let seen: u128 = (SCALE as u128) * (observed as u128);
            let gap: u128 = if seen >= expected {
                seen - expected
            } else {
                expected - seen
            };
            let term = reference_weight(i).mul_u128(gap).mul_u128(gap);
            proof {
                let d = deviation(observed as int, part as int, total as int);
                assert(as_counts(counts@)[i as int] == observed);
                assert(gap == d || gap == -d);
                assert(gap * gap == d * d) by (nonlinear_arith)
                    requires
                        gap == d || gap == -d,
                ;
                let w = weight(i as int);
                assert((w * gap) * gap == w * (gap * gap)) by (nonlinear_arith);
            }
            score = score.add(&term);
        }
    }
    score
}

} // verus!
