use std::collections::HashSet;
use ublkera::crc::crc32;
use ublkera::era::EraState;
use ublkera::meta::LoadError;
use ublkera::rng::Rng;
use ublkera::stamp::{Stamp, StampPhase};

#[test]
fn mark_and_query() {
    let mut s = EraState::new(1 << 20, 65536, 7).unwrap(); // 16 chunks
    assert_eq!(s.nr_chunks(), 16);
    s.mark_write(0, 100); // chunk 0
    s.mark_write(65536 * 2 + 10, 65536); // chunks 2,3
    let r = s.ranges_since(0);
    assert_eq!(r.len(), 2);
    assert_eq!((r[0].offset, r[0].len), (0, 65536));
    assert_eq!((r[1].offset, r[1].len), (65536 * 2, 65536 * 2));

    let (closed, now) = s.checkpoint();
    assert_eq!((closed, now), (1, 2));
    assert!(s.ranges_since(closed).is_empty());
    s.mark_write(65536 * 5, 1);
    let r = s.ranges_since(closed);
    assert_eq!(r.len(), 1);
    assert_eq!(r[0].offset, 65536 * 5);
}

#[test]
fn save_load_roundtrip() {
    let mut s = EraState::new(1 << 20, 65536, 7).unwrap();
    s.mark_write(65536 * 7, 4096);
    s.checkpoint();
    let raw = s.save(true);

    let (l, clean) = EraState::load(&raw, 1 << 20, 65536).unwrap();
    assert!(clean);
    assert_eq!(l.current_era(), 2);
    let r = l.ranges_since(0);
    assert_eq!(r.len(), 1);
    assert_eq!(r[0].offset, 65536 * 7);
    assert!(EraState::load(&raw, 1 << 21, 65536).is_err());
    assert_eq!(l.generation, 7);
    assert_eq!(l.save(true), raw);
}

/// An unclean save (crash while attached) must be detectable, and
/// mark_all_dirty must turn it into "everything changed since any older era":
/// the automatic full-copy fallback.
#[test]
fn unclean_load_falls_back_to_full_dirty() {
    let mut s = EraState::new(1 << 20, 65536, 7).unwrap();
    s.mark_write(0, 1);
    s.checkpoint(); // era 2 now current; cursor 1 is a valid consumer cursor
    let raw = s.save(false); // attached marker: a crash would leave this

    let (mut l, clean) = EraState::load(&raw, 1 << 20, 65536).unwrap();
    assert!(!clean);
    l.mark_all_dirty();
    let dirty: u64 = l.ranges_since(1).iter().map(|r| r.len).sum();
    assert_eq!(dirty, 1 << 20, "whole device must be reported changed");
}

/// A save writes a temporary file and renames it, so a crash leaves the
/// previous file beside a torn temporary one, or the new file. Recovery must
/// load in each of those states, see the marker unclean, and degrade to
/// full-dirty; and a torn temporary file must never pass for metadata.
#[test]
fn crash_at_every_byte_of_a_save_degrades_safely() {
    // the attach marker that a checkpoint save would be replacing
    let mut s = EraState::new(1 << 20, 65536, 7).unwrap();
    s.mark_write(0, 1);
    let marker = s.save(false);

    // the bytes that a subsequent checkpoint save would write
    s.checkpoint();
    s.mark_write(65536 * 3, 1);
    let newer = s.save(false);

    for cut in 0..=newer.len() {
        let path: &[u8] = &marker;
        let tmp: &[u8] = &newer[..cut];

        // what the next attach does
        let (mut l, clean) = match EraState::load(path, 1 << 20, 65536) {
            Ok(loaded) => loaded,
            Err(e) => panic!("cut={cut}: recovery load failed: {}", e.message("meta.bin")),
        };
        assert!(!clean, "cut={cut}: marker must be unclean");
        l.mark_all_dirty();
        let dirty: u64 = l.ranges_since(0).iter().map(|r| r.len).sum();
        assert_eq!(dirty, 1 << 20, "cut={cut}: full-dirty fallback");

        // the next save must be complete again
        assert!(EraState::load(&l.save(false), 1 << 20, 65536).is_ok(), "cut={cut}: re-save failed");
        assert_eq!(EraState::load(tmp, 1 << 20, 65536).is_ok(), cut == newer.len());
    }
    let (l, clean) = EraState::load(&newer, 1 << 20, 65536).unwrap();
    assert!(!clean);
    assert_eq!(l.current_era(), 2);
}

/// A truncated file must fail to load at every length: never load with a short
/// chunk array or partial header.
#[test]
fn truncated_metadata_never_loads() {
    let mut s = EraState::new(1 << 20, 65536, 7).unwrap();
    s.mark_write(0, 1);
    let full = s.save(true);

    for cut in 0..full.len() {
        assert!(
            EraState::load(&full[..cut], 1 << 20, 65536).is_err(),
            "truncation at {cut}/{} bytes must not load",
            full.len()
        );
    }
}

/// Corrupt every byte of the file in turn (and append trailing garbage): the
/// checksum must reject each one.
#[test]
fn corrupted_metadata_never_loads() {
    let mut s = EraState::new(1 << 20, 65536, 7).unwrap();
    s.mark_write(65536 * 3, 1);
    s.checkpoint();
    let full = s.save(true);

    for i in 0..full.len() {
        let mut bad = full.clone();
        bad[i] ^= 0xFF;
        assert!(
            EraState::load(&bad, 1 << 20, 65536).is_err(),
            "flipped byte {i}/{} must not load",
            full.len()
        );
    }
    let mut bad = full.clone();
    bad.push(0);
    assert!(
        EraState::load(&bad, 1 << 20, 65536).is_err(),
        "trailing garbage must not load"
    );
}

#[test]
fn tail_chunk_clamped() {
    // 1MiB + 4KiB device: last chunk is partial
    let mut s = EraState::new((1 << 20) + 4096, 65536, 7).unwrap();
    assert_eq!(s.nr_chunks(), 17);
    s.mark_write(1 << 20, 4096);
    let r = s.ranges_since(0);
    assert_eq!(r[0].len, 4096);
}

/// A writer stamps each chunk once, step by step, while a checkpointer takes
/// checkpoints between any two of those steps and collects the diff after each.
/// The union of all diffs (plus a final sweep) must cover every chunk.
#[test]
fn no_write_lost_across_concurrent_checkpoints() {
    const GRAN: u64 = 4096;
    const N: usize = 4096; // one chunk per write

    let mut s = EraState::new(GRAN * N as u64, GRAN, 7).unwrap();
    let mut covered: HashSet<usize> = HashSet::new();
    let mut prev = 0u32;
    let mut schedule = Rng(1);
    for i in 0..N {
        let mut stamp = match Stamp::begin(&s, i as u64 * GRAN, 1) {
            Some(stamp) => stamp,
            None => panic!("chunk {i} lies on the device"),
        };
        loop {
            if schedule.below(4) == 0 {
                let (closed, _) = s.checkpoint();
                for r in s.ranges_since(prev) {
                    covered.extend((r.offset / GRAN) as usize..((r.offset + r.len) / GRAN) as usize);
                }
                prev = closed;
            }
            if stamp.step(&mut s) {
                break;
            }
        }
    }
    for r in s.ranges_since(prev) {
        covered.extend((r.offset / GRAN) as usize..((r.offset + r.len) / GRAN) as usize);
    }
    for i in 0..N {
        assert!(covered.contains(&i), "chunk {i} was lost from every incremental diff");
    }
}

#[test]
fn stamping_again_when_a_checkpoint_slips_in() {
    let mut s = EraState::new(1 << 20, 65536, 7).unwrap();
    let mut stamp = Stamp::begin(&s, 65536 * 2, 65536 * 2).unwrap();
    assert!(!stamp.step(&mut s)); // load era 1
    assert_eq!(stamp.phase, StampPhase::Raise { era: 1, next: 2 });
    assert!(!stamp.step(&mut s)); // chunk 2
    s.checkpoint();
    assert!(!stamp.step(&mut s)); // chunk 3
    assert_eq!(stamp.phase, StampPhase::Confirm { era: 1 });
    // the era moved: nothing since the closed era yet, so not done
    assert!(s.ranges_since(1).is_empty());
    let mut steps = 0;
    while !stamp.step(&mut s) {
        steps += 1;
        assert!(steps < 10);
    }
    assert_eq!(stamp.phase, StampPhase::Done { era: 2 });
    let r = s.ranges_since(1);
    assert_eq!((r.len(), r[0].offset, r[0].len), (1, 65536 * 2, 65536 * 2));
}

#[test]
fn writes_off_the_device_change_nothing() {
    let mut s = EraState::new(1 << 20, 65536, 7).unwrap();
    s.mark_write(100, 0);
    s.mark_write(1 << 20, 4096);
    s.mark_write(u64::MAX, 1);
    assert!(s.ranges_since(0).is_empty());
    assert_eq!(s.written_chunks(), 0);
    // a write across the end marks what is on the device
    s.mark_write((1 << 20) - 1, 4096);
    assert_eq!(s.written_chunks(), 1);
    assert_eq!(s.ranges_since(0)[0].offset, 65536 * 15);
}

#[test]
fn granularity_is_a_power_of_two_of_a_page_or_more() {
    for bad in [0u64, 1, 2048, 5000, 65537] {
        assert_eq!(EraState::new(1 << 20, bad, 7).err(), Some(bad));
    }
    for good in [4096u64, 65536, 1 << 30] {
        assert!(EraState::new(1 << 20, good, 7).is_ok());
    }
    assert_eq!(
        ublkera::meta::complain_granularity(5000),
        "granularity must be a power of two >= 4096 (got 5000)"
    );
}

#[test]
fn full_dirty_keeps_the_newest_eras() {
    let mut s = EraState::new(1 << 20, 65536, 7).unwrap();
    s.checkpoint();
    s.mark_all_dirty();
    assert_eq!(s.written_chunks(), 16);
    assert_eq!(s.ranges_since(1).len(), 1);
    assert_eq!(s.ranges_since(1)[0].len, 1 << 20);
    assert!(s.ranges_since(2).is_empty());
}

/// A metadata file with its checksum filled in.
fn sealed(gran: u64, size: u64, era: u32, chunks: u64, clean: u32, body: &[u8]) -> Vec<u8> {
    let mut raw = b"UBLKERA1".to_vec();
    raw.extend_from_slice(&4u32.to_le_bytes());
    raw.extend_from_slice(&gran.to_le_bytes());
    raw.extend_from_slice(&size.to_le_bytes());
    raw.extend_from_slice(&era.to_le_bytes());
    raw.extend_from_slice(&chunks.to_le_bytes());
    raw.extend_from_slice(&clean.to_le_bytes());
    raw.extend_from_slice(&0x0102_0304_0506_0708u64.to_le_bytes());
    raw.extend_from_slice(&0u32.to_le_bytes());
    raw.extend_from_slice(body);
    let crc = crc32(&[&raw]);
    raw[52..56].copy_from_slice(&crc.to_le_bytes());
    raw
}

#[test]
fn saved_bytes_have_the_documented_layout() {
    let mut s = EraState::new(3 * 4096 + 512, 4096, 0x0102_0304_0506_0708).unwrap();
    s.checkpoint();
    s.mark_write(4096, 1);
    let body = [0u8, 0, 0, 0, 2, 0, 0, 0, 0, 0, 0, 0, 0, 0, 0, 0];
    assert_eq!(s.save(true), sealed(4096, 3 * 4096 + 512, 2, 4, 1, &body));
    assert_eq!(s.save(false), sealed(4096, 3 * 4096 + 512, 2, 4, 0, &body));
}

#[test]
fn each_damage_has_its_error() {
    let good = sealed(4096, 8192, 1, 2, 1, &[0u8; 8]);
    assert!(EraState::load(&good, 8192, 4096).is_ok());
    let why = |raw: &[u8], size: u64, gran: u64| EraState::load(raw, size, gran).err().unwrap();

    assert_eq!(why(&good[..55], 8192, 4096), LoadError::Truncated);
    let mut raw = good.clone();
    raw[0] = b'X';
    assert_eq!(why(&raw, 8192, 4096), LoadError::NotMetadata);
    let mut raw = good.clone();
    raw[8] = 9;
    assert_eq!(why(&raw, 8192, 4096), LoadError::UnsupportedVersion { version: 9 });
    let mut raw = good.clone();
    raw[60] = 1;
    assert_eq!(why(&raw, 8192, 4096), LoadError::ChecksumMismatch);
    assert_eq!(
        why(&good, 8192, 65536),
        LoadError::GranularityMismatch { found: 4096, requested: 65536 }
    );
    assert_eq!(why(&good, 4096, 4096), LoadError::SizeMismatch { found: 8192, backing: 4096 });
    let odd = sealed(5000, 8192, 1, 2, 1, &[0u8; 8]);
    assert_eq!(why(&odd, 8192, 5000), LoadError::BadGranularity { granularity: 5000 });
    let odd = sealed(4096, 8192, 1, 3, 1, &[0u8; 12]);
    assert_eq!(why(&odd, 8192, 4096), LoadError::ChunkCountMismatch);
    let odd = sealed(4096, 8192, 1, 2, 1, &[0u8; 12]);
    assert_eq!(why(&odd, 8192, 4096), LoadError::BodyLengthMismatch);
}

#[test]
fn load_errors_in_words() {
    let p = "/m";
    assert_eq!(LoadError::Truncated.message(p), "/m: truncated metadata file");
    assert_eq!(LoadError::NotMetadata.message(p), "/m: not a ublkera metadata file");
    assert_eq!(
        LoadError::UnsupportedVersion { version: 9 }.message(p),
        "/m: unsupported metadata version 9"
    );
    assert_eq!(
        LoadError::ChecksumMismatch.message(p),
        "/m: checksum mismatch (corrupted metadata); delete it to start a fresh history \
         (consumers then fall back to a full copy)"
    );
    assert_eq!(
        LoadError::GranularityMismatch { found: 4096, requested: 65536 }.message(p),
        "metadata granularity 4096 does not match requested 65536; delete /m to start fresh"
    );
    assert_eq!(
        LoadError::SizeMismatch { found: 8192, backing: 4096 }.message(p),
        "metadata device size 8192 does not match backing size 4096; delete /m to start fresh"
    );
    assert_eq!(
        LoadError::BadGranularity { granularity: 5000 }.message(p),
        "granularity must be a power of two >= 4096 (got 5000)"
    );
    assert_eq!(LoadError::ChunkCountMismatch.message(p), "metadata chunk count mismatch");
    assert_eq!(LoadError::BodyLengthMismatch.message(p), "metadata body length mismatch");
}

#[test]
fn checksum_of_the_check_string() {
    assert_eq!(crc32(&[b"123456789"]), 0xCBF4_3926);
    assert_eq!(crc32(&[b"1234", b"", b"56789"]), 0xCBF4_3926);
    assert_eq!(crc32(&[]), 0);
}

/// A consumer that copies only the diffs keeps an identical image.
#[test]
fn copying_diffs_keeps_the_image() {
    let mut s = EraState::new(64 * 4096, 4096, 7).unwrap();
    let mut device = vec![0u8; 64 * 4096];
    let mut backup = device.clone();
    let mut cursor = 0u32;
    let mut rng = Rng(5);
    for round in 0..20u8 {
        for _ in 0..5 {
            let off = rng.below(64 * 4096 - 9000) as usize;
            let len = 1 + rng.below(9000) as usize;
            device[off..off + len].fill(round + 1);
            s.mark_write(off as u64, len as u64);
        }
        let (closed, _) = s.checkpoint();
        for r in s.ranges_since(cursor) {
            let (from, to) = (r.offset as usize, (r.offset + r.len) as usize);
            backup[from..to].copy_from_slice(&device[from..to]);
        }
        cursor = closed;
        assert!(backup == device, "round {round}");
    }
}

/// The written chunks are those of the diff since the first era, each once,
/// and a checkpoint leaves their number alone.
#[test]
fn written_chunks_are_counted_once() {
    let size = (1 << 20) + 4096;
    let mut s = EraState::new(size, 65536, 7).unwrap();
    s.mark_write(0, 100);
    s.mark_write(65536 * 2, 65536 * 2);
    s.mark_write(65536 * 3, 1);
    s.mark_write(1 << 20, 4096); // the short chunk at the end
    assert_eq!((s.nr_chunks(), s.written_chunks()), (17, 4));
    s.checkpoint();
    assert_eq!(s.written_chunks(), 4);
    s.mark_write(0, 1);
    assert_eq!(s.written_chunks(), 4);
    let sum: u64 = s.ranges_since(0).iter().map(|r| r.len.div_ceil(65536)).sum();
    assert_eq!(sum, 4);
}
