use unirand::mixer::Mixer;
use unirand::seed::{split_seed, SeedOutOfRange, SEED_MAX};

#[test]
fn classic_seed_splits_into_12_34_56_78() {
    assert_eq!(split_seed(54_217_137), Ok((12, 34, 56, 78)));
}

#[test]
fn known_splits() {
    assert_eq!(split_seed(0), Ok((2, 2, 1, 0)));
    assert_eq!(split_seed(1), Ok((2, 2, 1, 1)));
    assert_eq!(split_seed(30082), Ok((2, 3, 1, 0)));
    assert_eq!(split_seed(12345), Ok((2, 2, 74, 8)));
    assert_eq!(split_seed(900_000_000), Ok((171, 7, 40, 133)));
}

#[test]
fn split_refuses_seeds_out_of_range() {
    assert_eq!(SEED_MAX, 900_000_000);
    assert_eq!(split_seed(-1), Err(SeedOutOfRange { seed: -1 }));
    assert_eq!(split_seed(SEED_MAX + 1), Err(SeedOutOfRange { seed: 900_000_001 }));
    assert_eq!(split_seed(i32::MIN), Err(SeedOutOfRange { seed: i32::MIN }));
    assert_eq!(split_seed(i32::MAX), Err(SeedOutOfRange { seed: i32::MAX }));
}

#[test]
fn every_split_of_a_sample_of_seeds_is_in_its_bands() {
    let mut seed: i32 = 0;
    while seed <= 900_000_000 - 99_991 {
        let (i, j, k, l) = split_seed(seed).unwrap();
        assert!((2..=178).contains(&i));
        assert!((2..=178).contains(&j));
        assert!((1..=178).contains(&k));
        assert!((0..=168).contains(&l));
        seed += 99_991;
    }
}

#[test]
fn mixer_rounds_yield_the_expected_bits() {
    let mut mixer = Mixer::new(12, 34, 56, 78);
    let bits: Vec<u32> = (0..8).map(|_| mixer.round()).collect();
    assert_eq!(bits, vec![1, 1, 0, 1, 0, 0, 0, 1]);
}

#[test]
fn mixer_words_are_the_table_entries() {
    let mut mixer = Mixer::new(12, 34, 56, 78);
    assert_eq!(mixer.word(), 13697435);
    assert_eq!(mixer.word(), 3833429);
    assert_eq!(mixer.word(), 12353926);
    let mut other = Mixer::new(2, 2, 74, 8);
    assert_eq!(other.word(), 303626);
    assert_eq!(other.word(), 11824493);
}

#[test]
fn a_word_is_its_bits_most_significant_first() {
    let mut by_round = Mixer::new(12, 34, 56, 78);
    let mut word: u32 = 0;
    for _ in 0..24 {
        word = 2 * word + by_round.round();
    }
    assert_eq!(word, 13697435);
    assert_eq!(word >> 16, 0b1101_0001);
}
