use ublkera::pattern::fill_pattern;

#[test]
fn patterns_are_deterministic_and_distinct() {
    let mut a1 = vec![0u8; 8192];
    let mut a2 = vec![0u8; 8192];
    let mut b = vec![0u8; 8192];
    fill_pattern("alpha", 0, &mut a1);
    fill_pattern("alpha", 0, &mut a2);
    fill_pattern("beta", 0, &mut b);
    assert_eq!(a1, a2);
    assert_ne!(a1, b);
    let mut z = vec![7u8; 64];
    fill_pattern("zero", 0, &mut z);
    assert_eq!(z, vec![0u8; 64]);
}

/// A subrange expectation must agree with a larger write that covered it:
/// pattern bytes are anchored to the device offset, not the buffer.
#[test]
fn patterns_are_offset_anchored() {
    let mut whole = vec![0u8; 256 * 1024];
    fill_pattern("p", 0, &mut whole);
    let mut sub = vec![0u8; 192 * 1024];
    fill_pattern("p", 64 * 1024, &mut sub);
    assert_eq!(&whole[64 * 1024..], &sub[..]);
}

#[test]
fn the_hash_of_a_name_seeds_each_block() {
    let h = b"ab".iter().fold(0xcbf2_9ce4_8422_2325u64, |h, b| {
        (h ^ *b as u64).wrapping_mul(0x1000_0000_01b3)
    });
    let mut want = vec![0u8; 4096];
    ublkera::rng::Rng(h ^ 3).fill(&mut want);
    let mut got = vec![0u8; 4100];
    fill_pattern("ab", 3 * 4096, &mut got);
    assert!(got[..4096] == want[..]);
    ublkera::rng::Rng(h ^ 4).fill(&mut want);
    assert!(got[4096..] == want[..4]);
}
