use evernight::rng::range_sample;
use evernight::rng::{
    DeterministicRng, RngFactory, SeedableRng, SplitMix64Algorithm, StatefulRng,
    Xoroshiro128ppAlgorithm,
};

#[test]
fn test_splitmix64_seed() {
    let mut rng = SplitMix64Algorithm::new(1234567);
    let expected = [
        6457827717110365317u64,
        3203168211198807973u64,
        9817491932198370423u64,
        4593380528125082431u64,
        16408922859458223821u64,
    ];
    for &e in &expected {
        assert_eq!(rng.next_u64(), e);
    }
}

#[test]
fn test_xoroshiro128pp_seed() {
    let mut rng = Xoroshiro128ppAlgorithm::new(123456789);
    let expected = [
        0xc61f6394073ab015u64,
        0xdd60399264041d13u64,
        0x0d97d3cd143d5663u64,
        0xac3f8b8860cb4a64u64,
        0xfc96ab8265118e08u64,
    ];
    for &e in &expected {
        assert_eq!(rng.next_u64(), e);
    }
}

#[test]
fn test_rng_factory() {
    let factory = RngFactory;
    let mut rng1 = factory.create::<Xoroshiro128ppAlgorithm>(12345);
    let mut rng2 = factory.create::<Xoroshiro128ppAlgorithm>(12345);

    for _ in 0..100 {
        assert_eq!(rng1.next_u64(), rng2.next_u64());
    }
}

#[test]
fn splitmix_next_u32_is_low_half() {
    let mut a = SplitMix64Algorithm::new(1234567);
    let mut b = SplitMix64Algorithm::new(1234567);
    let wide = a.next_u64();
    assert_eq!(b.next_u32(), wide as u32);
    assert_eq!(b.next_u32(), 3203168211198807973u64 as u32);
}

#[test]
fn splitmix_state_roundtrip_and_reseed() {
    let mut rng = SplitMix64Algorithm::new(42);
    assert_eq!(rng.state(), 42);
    rng.next_u64();
    let snapshot = rng.state();
    let next = rng.next_u64();
    rng.set_state(snapshot);
    assert_eq!(rng.next_u64(), next);
    rng.reseed(1234567);
    assert_eq!(rng.state(), 1234567);
    assert_eq!(rng.next_u64(), 6457827717110365317u64);
}

#[test]
fn xoroshiro_seed_state_is_first_two_splitmix_outputs() {
    let rng = Xoroshiro128ppAlgorithm::new(1234567);
    assert_eq!(rng.state(), (6457827717110365317u64, 3203168211198807973u64));
    let from_seed = Xoroshiro128ppAlgorithm::from_seed(1234567);
    assert_eq!(from_seed.state(), rng.state());
}

#[test]
fn xoroshiro_reseed_matches_new() {
    let mut rng = Xoroshiro128ppAlgorithm::new(1);
    rng.next_u64();
    rng.reseed(123456789);
    assert_eq!(rng.next_u64(), 0xc61f6394073ab015u64);
}

#[test]
fn xoroshiro_state_restore_replays_stream() {
    let mut rng = Xoroshiro128ppAlgorithm::new(99);
    let saved = rng.state();
    let a: Vec<u64> = (0..5).map(|_| rng.next_u64()).collect();
    rng.set_state(saved);
    let b: Vec<u64> = (0..5).map(|_| rng.next_u64()).collect();
    assert_eq!(a, b);
}

#[test]
fn xoroshiro_jump_from_known_state() {
    let mut rng = Xoroshiro128ppAlgorithm::new(0);
    rng.set_state((1, 2));
    rng.jump();
    assert_eq!(rng.state(), (8625214420338730171, 17730401117375794498));
}

#[test]
fn xoroshiro_jump_commutes_with_next() {
    let mut a = Xoroshiro128ppAlgorithm::new(123456789);
    a.jump();
    a.next_u64();
    let mut b = Xoroshiro128ppAlgorithm::new(123456789);
    b.next_u64();
    b.jump();
    assert_eq!(a.state(), b.state());
    let mut c = Xoroshiro128ppAlgorithm::new(0);
    c.set_state((1, 2));
    c.next_u64();
    c.jump();
    assert_eq!(c.state(), (3378750963954232898, 1465964145602715187));
}

#[test]
fn range_sample_accepts_below_zone_and_maps_into_range() {
    // width 10: zone = u64::MAX - u64::MAX % 10 = 18446744073709551610
    assert_eq!(range_sample(0, 5, 15), Some(5));
    assert_eq!(range_sample(27, 5, 15), Some(12));
    assert_eq!(range_sample(18446744073709551609, 0, 10), Some(9));
    assert_eq!(range_sample(18446744073709551610, 0, 10), None);
    assert_eq!(range_sample(u64::MAX, 0, 10), None);
    // width 2: u64::MAX % 2 == 1, so the zone ends just below u64::MAX - 1
    assert_eq!(range_sample(u64::MAX - 2, 0, 2), Some(1));
    assert_eq!(range_sample(u64::MAX - 1, 0, 2), None);
    assert_eq!(range_sample(u64::MAX, 0, 2), None);
    assert_eq!(range_sample(123, 7, 8), Some(7));
}

#[test]
fn xoroshiro_seeding_takes_first_two_splitmix_outputs() {
    let mut sm = SplitMix64Algorithm::new(42);
    let expected = (sm.next_u64(), sm.next_u64());
    assert_eq!(Xoroshiro128ppAlgorithm::new(42).state(), expected);
    assert_eq!(Xoroshiro128ppAlgorithm::from_seed(42).state(), expected);
    let mut r = Xoroshiro128ppAlgorithm::new(7);
    r.reseed(42);
    assert_eq!(r.state(), expected);
}
