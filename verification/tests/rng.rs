use ublkera::rng::Rng;

#[test]
fn the_known_stream_of_seed_zero() {
    let mut rng = Rng(0);
    assert_eq!(rng.next(), 0xE220_A839_7B1D_CDAF);
    assert_eq!(rng.next(), 0x6E78_9E6A_A1B9_65F4);
    assert_eq!(rng.next(), 0x06C4_5D18_8009_454F);
}

#[test]
fn draws_below_a_bound() {
    let mut rng = Rng(0);
    assert_eq!(rng.below(1000), 0xE220_A839_7B1D_CDAF % 1000);
    for _ in 0..100 {
        assert!(rng.below(7) < 7);
    }
}

#[test]
fn rolls_per_mill() {
    let mut rng = Rng(0);
    assert!(!rng.hit(0));
    assert_eq!(rng.0, 0); // nothing drawn
    assert!(rng.hit(1000));
    assert_ne!(rng.0, 0);
    let mut rng = Rng(0);
    let roll = (0xE220_A839_7B1D_CDAFu64 % 1000) as u32;
    assert!(!rng.hit(roll));
    let mut rng = Rng(0);
    assert!(rng.hit(roll + 1));
}

#[test]
fn fills_with_whole_and_partial_words() {
    let mut buf = [0u8; 11];
    Rng(0).fill(&mut buf);
    assert_eq!(buf[..8], 0xE220_A839_7B1D_CDAFu64.to_le_bytes());
    assert_eq!(buf[8..], 0x6E78_9E6A_A1B9_65F4u64.to_le_bytes()[..3]);
}
