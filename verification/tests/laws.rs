use bashrand::cli::Version;
use bashrand::crack::crack_unique;
use bashrand::random::generate;
use bashrand::scan::Probe;

#[test]
fn round_trip_new() {
    for seed in [1337u32, 31337, 1, 1073741823] {
        let outputs = generate(seed, false, 0, 3);
        let numbers = [outputs[0], outputs[1], outputs[2]];
        assert_eq!(crack_unique(numbers, Version::New), Ok((seed, false)));
    }
}

#[test]
fn round_trip_old() {
    for seed in [1337u32, 31337, 2147483646] {
        let outputs = generate(seed, true, 0, 3);
        let numbers = [outputs[0], outputs[1], outputs[2]];
        assert_eq!(crack_unique(numbers, Version::Old), Ok((seed, true)));
    }
}

#[test]
fn round_trip_from_outside_the_domain() {
    // A seed above the domain comes back as the seed inside that gives the same.
    let outputs = generate(3000000000, false, 0, 3);
    let found = crack_unique([outputs[0], outputs[1], outputs[2]], Version::New);
    assert_eq!(found, Ok((852516351, false)));
    assert_eq!(generate(852516351, false, 0, 3), outputs);

    let outputs = generate(3000000000, true, 0, 3);
    let found = crack_unique([outputs[0], outputs[1], outputs[2]], Version::Old);
    assert_eq!(found, Ok((852516351, true)));
}

#[test]
fn round_trip_of_seeds_that_give_the_same() {
    // Zero and the constant that stands in for it give the same outputs.
    let outputs = generate(123459876, false, 0, 3);
    assert_eq!(outputs, generate(0, false, 0, 3));
    let found = crack_unique([outputs[0], outputs[1], outputs[2]], Version::New);
    assert!(found == Ok((0, false)) || found == Ok((123459876, false)));
}

#[test]
fn upper_half_gives_what_the_lower_half_gives() {
    // Read as a signed number, the seed is reduced modulo 2^31 - 1.
    let modulus: i64 = 0x7fff_ffff;
    for seed in [2147483648u32, 2147483650, 3000000000, 4000000000, 4294967295] {
        let inside = (seed as i64 - (1 << 32)).rem_euclid(modulus) as u32;
        assert!(inside <= u32::MAX / 2);
        for is_old in [false, true] {
            assert_eq!(generate(seed, is_old, 0, 50), generate(inside, is_old, 0, 50));
        }
    }
    assert_eq!(generate(3000000000, true, 0, 5), vec![10857, 23186, 12843, 10726, 29451]);
    assert_eq!(generate(3000000000, false, 0, 5), vec![10146, 20447, 15198, 17622, 26345]);
    // 2^31 + 1 steps to zero, as 2^31 - 1 does.
    assert_eq!(generate(2147483649, true, 0, 50), generate(2147483647, true, 0, 50));
    assert_eq!(generate(2147483649, false, 0, 50), generate(0, false, 0, 50));
}

#[test]
fn second_quarter_mirrors_the_first_under_the_new_rule() {
    for seed in [1073741824u32, 1073741825, 1500000000, 2000000000, 2147483646] {
        let inside = 0x7fff_ffff - seed;
        assert!(inside <= u32::MAX / 4);
        assert_eq!(generate(seed, false, 0, 50), generate(inside, false, 0, 50));
    }
    assert_eq!(generate(1073741824, false, 0, 5), vec![24787, 21779, 9783, 6991, 31193]);
    assert_eq!(generate(2147483647, false, 0, 50), generate(0, false, 0, 50));
}

#[test]
fn second_quarter_does_not_mirror_under_the_old_rule() {
    assert_ne!(generate(1073741824, true, 0, 3), generate(1073741823, true, 0, 3));
}

#[test]
fn probe_tests_one_seed() {
    let triple = Probe::Triple { triple: [24697, 15233, 8710], is_old: false };
    assert!(triple.test(1337));
    assert!(!triple.test(1338));
    assert!(!Probe::Triple { triple: [24697, 15233, 8711], is_old: false }.test(1337));
    assert!(!Probe::Triple { triple: [24697, 15233, 8710], is_old: true }.test(1337));

    let pair = Probe::Pair { pair: [24879, 21848], is_old: true };
    assert!(pair.test(1337));
    assert!(!pair.test(0));
    assert!(!Probe::Pair { pair: [24879, 21849], is_old: true }.test(1337));

    let second = Probe::Second { target: 15233, is_old: false };
    assert!(second.test(1337));
    assert!(!Probe::Second { target: 24697, is_old: false }.test(1337));
    assert!(Probe::Second { target: 21848, is_old: true }.test(1337));

    let collision = Probe::Collision { target: 37 };
    assert!(collision.test(901656913));
    assert!(collision.test(910416221));
    assert!(!collision.test(1337));
}

#[test]
fn collision_search_leaves_out_the_second_quarter() {
    // This seed gives 23021 second under both rules, but lies above the quarter
    // that the collision search walks; its mirror image does not collide.
    let collision = Probe::Collision { target: 23021 };
    assert!(collision.test(1073770914));
    assert!(1073770914 > u32::MAX / 4);
    assert!(!collision.test(0x7fff_ffff - 1073770914));
}
