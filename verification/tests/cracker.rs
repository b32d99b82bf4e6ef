use cipher_engine::bignat::BigNat;
use cipher_engine::caesar::caesar_cipher;
use cipher_engine::cracker::{crack_caesar, score_candidate};
use cipher_engine::frequency::{
    chi_squared, count_letters, letter_histogram, reference_part, reference_weight,
};

const PASSAGE: &str = "It was the best of times, it was the worst of times, it was the age of \
wisdom, it was the age of foolishness. We had everything before us, we had nothing before us.";

fn big(limbs: &[u64]) -> BigNat {
    let mut n = BigNat::from_u64(0);
    for limb in limbs.iter().rev() {
        n = n.shift_limb().add(&BigNat::from_u64(*limb));
    }
    n
}

fn same(a: &BigNat, b: &BigNat) -> bool {
    !a.less_than(b) && !b.less_than(a)
}

#[test]
fn cracker_recovers_the_shift_of_english_text() {
    let secret = caesar_cipher(PASSAGE, 7);
    let (plain, shift) = crack_caesar(&secret);
    assert_eq!(shift, 7);
    assert_eq!(plain, PASSAGE);
}

#[test]
fn cracker_recovers_other_shifts() {
    for shift in [0i16, 1, 13, 25] {
        let secret = caesar_cipher(PASSAGE, shift);
        let (plain, found) = crack_caesar(&secret);
        assert_eq!(found, shift);
        assert_eq!(plain, PASSAGE);
    }
    let (plain, found) = crack_caesar(&caesar_cipher(PASSAGE, -3));
    assert_eq!(found, 23);
    assert_eq!(plain, PASSAGE);
}

#[test]
fn cracker_leaves_text_without_letters() {
    assert_eq!(crack_caesar("1234!!"), ("1234!!".to_string(), 0));
    assert_eq!(crack_caesar(""), (String::new(), 0));
    assert_eq!(crack_caesar(" \u{e9}\u{3b1} 7"), (" \u{e9}\u{3b1} 7".to_string(), 0));
}

#[test]
fn cracker_on_short_text_takes_the_best_fit() {
    assert_eq!(crack_caesar("a"), ("e".to_string(), 22));
    assert_eq!(crack_caesar("q"), ("e".to_string(), 12));
    assert_eq!(crack_caesar("e"), ("e".to_string(), 0));
    assert_eq!(crack_caesar("zz"), ("ee".to_string(), 21));
    assert_eq!(crack_caesar("ab"), ("st".to_string(), 8));
    assert_eq!(crack_caesar("xyz"), ("rst".to_string(), 6));
    assert_eq!(crack_caesar("Hello"), ("Wtaad".to_string(), 11));
    assert_eq!(crack_caesar("aaaa bbbb"), ("ssss tttt".to_string(), 8));
}

#[test]
fn cracker_keeps_case_and_other_characters() {
    let (plain, shift) = crack_caesar("Q, 1 \u{e9}!");
    assert_eq!(shift, 12);
    assert_eq!(plain, "E, 1 \u{e9}!");
}

#[test]
fn cracker_result_has_the_lowest_score() {
    let secret = caesar_cipher("Frequency analysis breaks a shift cipher.", 19);
    let total = count_letters(&secret);
    let (_, found) = crack_caesar(&secret);
    let (_, best) = score_candidate(&secret, total, found);
    for guess in 0i16..26 {
        let (text, score) = score_candidate(&secret, total, guess);
        assert_eq!(text, caesar_cipher(&secret, -guess));
        assert!(!score.less_than(&best));
        if guess < found {
            assert!(best.less_than(&score));
        }
    }
}

#[test]
fn count_letters_counts_ascii_letters() {
    assert_eq!(count_letters(""), 0);
    assert_eq!(count_letters("1234!!"), 0);
    assert_eq!(count_letters("Hello, World!"), 10);
    assert_eq!(count_letters("\u{e9}a\u{3b1}B"), 2);
}

#[test]
fn letter_histogram_folds_case() {
    let counts = letter_histogram("Hello, World! zZ \u{e9}");
    let mut expected = [0u64; 26];
    expected[7] = 1;
    expected[4] = 1;
    expected[11] = 3;
    expected[14] = 2;
    expected[22] = 1;
    expected[17] = 1;
    expected[3] = 1;
    expected[25] = 2;
    assert_eq!(counts, expected);
    assert_eq!(letter_histogram(""), [0u64; 26]);
}

#[test]
fn reference_profile_holds_english_frequencies() {
    assert_eq!(reference_part(0), 8167);
    assert_eq!(reference_part(4), 12702);
    assert_eq!(reference_part(16), 95);
    assert_eq!(reference_part(25), 74);
    let mut sum = 0u64;
    for i in 0..26 {
        assert!(reference_part(i) > 0);
        sum += reference_part(i);
    }
    assert_eq!(sum, 99_999);
}

#[test]
fn reference_weight_is_the_product_of_the_other_parts() {
    let first = big(&[
        17512056165561794560,
        11677922923112953456,
        3159446494322735296,
        10824364061540080964,
        187534,
    ]);
    let last = big(&[
        6775918792745680896,
        10522877068660948595,
        9670642957956607700,
        6060885772306744990,
        20697229,
    ]);
    assert!(same(&reference_weight(0), &first));
    assert!(same(&reference_weight(25), &last));
    let whole = reference_weight(0).mul_u64(reference_part(0));
    for i in 0..26 {
        assert!(same(&reference_weight(i).mul_u64(reference_part(i)), &whole));
    }
}

#[test]
fn chi_squared_exact_values() {
    let mut counts = [0u64; 26];
    counts[4] = 3;
    counts[19] = 2;
    counts[0] = 1;
    let expected = big(&[
        15187932923807399936,
        71295332318556864,
        3980496336944688107,
        6279309386519860482,
        13978657919263466,
    ]);
    assert!(same(&chi_squared(&counts, 6), &expected));

    let even = [1u64; 26];
    let expected = big(&[
        16666449887780405248,
        9426696768632256646,
        14888444603214240303,
        9644516062607653580,
        592899134631888188,
    ]);
    assert!(same(&chi_squared(&even, 26), &expected));

    let none = [0u64; 26];
    let expected = big(&[
        14793340007204519936,
        15250834110219081603,
        2010716992327488879,
        4348132574115656704,
        3828949135909578,
    ]);
    assert!(same(&chi_squared(&none, 5), &expected));
}

#[test]
fn chi_squared_without_letters_has_no_terms() {
    let counts = [0u64; 26];
    assert!(same(&chi_squared(&counts, 0), &BigNat::from_u64(0)));
}

#[test]
fn chi_squared_at_the_largest_counts() {
    let mut counts = [0u64; 26];
    counts[25] = u64::MAX;
    let expected = big(&[
        5242314194480529408,
        15726808484859953184,
        17405951384827105991,
        7796932666785812927,
        9296991395747547372,
        18111159035880271142,
        206819132256986436,
    ]);
    assert!(same(&chi_squared(&counts, u64::MAX), &expected));
}

#[test]
fn chi_squared_is_lower_for_a_closer_fit() {
    let english = letter_histogram(PASSAGE);
    let shifted = letter_histogram(&caesar_cipher(PASSAGE, 5));
    let total = count_letters(PASSAGE);
    assert!(chi_squared(&english, total).less_than(&chi_squared(&shifted, total)));
}
