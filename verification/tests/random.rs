use bashrand::random::{generate, Random, BASH_RAND_MAX};

#[test]
fn bash_52_zero() {
    // $ bash5.2 -c 'RANDOM=0; echo $RANDOM $RANDOM $RANDOM'
    let mut rng = Random::new(0, false);
    assert_eq!(rng.next_16_n(3), vec![20814, 24386, 149]);
}

#[test]
fn bash_52_n() {
    // $ bash5.2 -c 'RANDOM=1337; echo $RANDOM $RANDOM $RANDOM'
    let mut rng = Random::new(1337, false);
    assert_eq!(rng.next_16_n(3), vec![24697, 15233, 8710]);
}

#[test]
fn bash_52_big() {
    // $ bash5.2 -c 'RANDOM=2147483646; echo $RANDOM $RANDOM $RANDOM'
    let mut rng = Random::new(2147483646, false);
    assert_eq!(rng.next_16_n(3), vec![16807, 10791, 19566]);
}

#[test]
fn bash_50_zero() {
    // $ bash5.0 -c 'RANDOM=0; echo $RANDOM $RANDOM $RANDOM'
    let mut rng = Random::new(0, true);
    assert_eq!(rng.next_16_n(3), vec![20034, 24315, 12703]);
}

#[test]
fn bash_50_n() {
    // $ bash5.0 -c 'RANDOM=1337; echo $RANDOM $RANDOM $RANDOM'
    let mut rng = Random::new(1337, true);
    assert_eq!(rng.next_16_n(3), vec![24879, 21848, 15683]);
}

#[test]
fn bash_50_big() {
    // $ bash5.0 -c 'RANDOM=2147483646; echo $RANDOM $RANDOM $RANDOM'
    let mut rng = Random::new(2147483646, true);
    assert_eq!(rng.next_16_n(3), vec![15960, 17678, 21286]);
}

#[test]
fn new_keeps_the_seed() {
    let rng = Random::new(1337, false);
    assert_eq!(rng.seed, 1337);
}

#[test]
fn next_seed_is_the_minimal_standard_step() {
    let mut rng = Random::new(1, false);
    assert_eq!(rng.next_seed(), 16807);
    assert_eq!(rng.seed, 16807);
    assert_eq!(rng.next_seed(), 282475249);
    assert_eq!(rng.next_seed(), 1622650073);
    assert_eq!(rng.next_seed(), 984943658);
}

#[test]
fn next_seed_replaces_zero() {
    let mut zero = Random::new(0, false);
    let mut constant = Random::new(123459876, false);
    assert_eq!(zero.next_seed(), 520932930);
    assert_eq!(constant.next_seed(), 520932930);
}

#[test]
fn next_seed_of_the_modulus_is_zero() {
    let mut rng = Random::new(2147483647, true);
    assert_eq!(rng.next_seed_n(3), vec![0, 520932930, 28925691]);
}

#[test]
fn next_seed_reads_the_top_bit_as_a_sign() {
    let mut rng = Random::new(4294967295, false);
    assert_eq!(rng.next_seed_n(3), vec![2147466840, 1865008398, 524833574]);
    let mut rng = Random::new(2147483648, false);
    assert_eq!(rng.next_seed(), 2147466840);
    let mut rng = Random::new(2147483649, false);
    assert_eq!(rng.next_seed(), 0);
}

#[test]
fn next_seed_n_of_nothing() {
    let mut rng = Random::new(1337, true);
    assert_eq!(rng.next_seed_n(0), Vec::<u32>::new());
    assert_eq!(rng.seed, 1337);
    assert_eq!(rng.next_seed_n(3), vec![22470959, 1859769688, 524664131]);
}

#[test]
fn next_seed_does_not_depend_on_the_rule() {
    let mut old = Random::new(987654321, true);
    let mut new = Random::new(987654321, false);
    assert_eq!(old.next_seed_n(16), new.next_seed_n(16));
}

#[test]
fn next_16_folds_the_raw_value() {
    // 22470959 is 0x0156e12f: the low 15 bits, and the halves folded.
    let mut old = Random::new(1337, true);
    assert_eq!(old.next_16(), 0x612f);
    assert_eq!(old.seed, 22470959);
    let mut new = Random::new(1337, false);
    assert_eq!(new.next_16(), (0x0156 ^ 0xe12f) & 0x7fff);
    assert_eq!(new.seed, 22470959);
}

#[test]
fn next_16_skips_a_repeated_output_old() {
    // From 40801 the first two raw values both end in 6471.
    let mut raw = Random::new(40801, true);
    assert_eq!(raw.next_seed_n(3), vec![685742407, 1875384647, 972275110]);
    assert_eq!(685742407 & 0x7fff, 6471);
    assert_eq!(1875384647 & 0x7fff, 6471);

    let mut rng = Random::new(40801, true);
    assert_eq!(rng.next_16(), 6471);
    assert_eq!(rng.seed, 685742407);
    assert_eq!(rng.next_16(), 15782);
    assert_eq!(rng.seed, 972275110);
    assert_eq!(rng.next_16_n(2), vec![31491, 6955]);
}

#[test]
fn next_16_skips_a_repeated_output_new() {
    // From 43073 the first two raw values both fold to 26689.
    let mut rng = Random::new(43073, false);
    assert_eq!(rng.next_16(), 26689);
    assert_eq!(rng.seed, 723927911);
    assert_eq!(rng.next_16(), 21034);
    assert_eq!(rng.seed, 403819067);
    assert_eq!(rng.next_16_n(2), vec![17446, 12456]);
}

#[test]
fn next_16_skips_a_first_output_of_zero() {
    // 2^31 - 1 steps to zero, which a new generator takes for a repeat.
    let mut old = Random::new(2147483647, true);
    assert_eq!(old.next_16_n(4), vec![20034, 24315, 12703, 22240]);
    let mut new = Random::new(2147483647, false);
    assert_eq!(new.next_16_n(4), vec![20814, 24386, 149, 25587]);
}

#[test]
fn next_16_never_repeats() {
    for is_old in [false, true] {
        for seed in [0u32, 1, 1337, 40801, 43073, 45646, 66258, 2147483647, 4294967295] {
            let mut rng = Random::new(seed, is_old);
            let outputs = rng.next_16_n(5000);
            assert_ne!(outputs[0], 0);
            for i in 1..outputs.len() {
                assert_ne!(outputs[i], outputs[i - 1]);
            }
            assert!(outputs.iter().all(|output| *output <= BASH_RAND_MAX));
        }
    }
}

#[test]
fn next_16_n_of_nothing() {
    let mut rng = Random::new(1337, false);
    assert_eq!(rng.next_16_n(0), Vec::<u16>::new());
    assert_eq!(rng.seed, 1337);
}

#[test]
fn next_16_n_is_repeated_next_16() {
    let mut one = Random::new(31337, true);
    let mut other = Random::new(31337, true);
    let all = one.next_16_n(8);
    for expected in all {
        assert_eq!(other.next_16(), expected);
    }
    assert_eq!(one.seed, other.seed);
}

#[test]
fn skip_discards_outputs() {
    let mut rng = Random::new(1337, false);
    rng.skip(3);
    assert_eq!(rng.next_16_n(5), vec![4659, 20253, 16480, 30033, 24872]);

    let mut rng = Random::new(1337, true);
    rng.skip(0);
    assert_eq!(rng.next_16(), 24879);
}

#[test]
fn skip_counts_outputs_not_raw_steps() {
    let mut rng = Random::new(40801, true);
    rng.skip(1);
    assert_eq!(rng.next_16(), 15782);
}

#[test]
fn generate_skips_then_draws() {
    assert_eq!(generate(1337, false, 0, 3), vec![24697, 15233, 8710]);
    assert_eq!(generate(1337, false, 3, 5), vec![4659, 20253, 16480, 30033, 24872]);
    assert_eq!(generate(1337, true, 3, 5), vec![2495, 26810, 8108, 1622, 13081]);
    assert_eq!(generate(31337, true, 0, 3), vec![895, 5874, 11135]);
    assert_eq!(generate(1337, true, 2, 0), Vec::<u16>::new());
}

#[test]
fn largest_output_is_15_bits() {
    assert_eq!(BASH_RAND_MAX, 32767);
}
