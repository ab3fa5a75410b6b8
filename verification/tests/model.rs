use ublkera::model::{CrashMode, CrashReport, Model, Policy};

const LBS: u32 = 4096;

fn model(seed: u64, policy: Policy) -> Model {
    Model::new(1 << 20, LBS, 1 << 19, seed, policy) // 1MiB dev, 512K cache
}

fn read_at(m: &mut Model, off: u64, len: usize) -> Vec<u8> {
    let mut buf = vec![0u8; len];
    m.read(off, &mut buf);
    buf
}

#[test]
fn read_your_writes_before_flush() {
    let mut m = model(1, Policy::default());
    m.write(8192, &[7u8; 4096]);
    assert_eq!(read_at(&mut m, 8192, 4096), vec![7u8; 4096]);
    // overlapping later write wins
    m.write(8192, &[9u8; 4096]);
    assert_eq!(read_at(&mut m, 8192, 4096), vec![9u8; 4096]);
}

#[test]
fn unflushed_writes_may_vanish_on_crash_flushed_may_not() {
    let mut m = model(1, Policy::default());
    m.write(0, &[1u8; 4096]);
    m.flush();
    m.write(4096, &[2u8; 4096]);
    m.crash(CrashMode::Drop);
    assert_eq!(read_at(&mut m, 0, 4096), vec![1u8; 4096], "flushed must survive");
    assert_eq!(read_at(&mut m, 4096, 4096), vec![0u8; 4096], "unflushed dropped");
}

#[test]
fn flush_lie_defeats_durability() {
    let mut m = model(
        1,
        Policy { flush_lie_pm: 1000, ..Policy::default() },
    );
    m.write(0, &[1u8; 4096]);
    m.flush(); // lie: acked, nothing committed
    assert_eq!(m.stats.flush_lies, 1);
    m.crash(CrashMode::Drop);
    assert_eq!(read_at(&mut m, 0, 4096), vec![0u8; 4096]);
}

#[test]
fn seeded_crash_is_deterministic_and_tears_on_block_boundaries() {
    let run = |seed| {
        let mut m = model(seed, Policy::default());
        for i in 0..32u64 {
            let fill = (i + 1) as u8;
            m.write(i * 8192, &vec![fill; 8192]); // 2 blocks per entry
        }
        let _ = m.crash(CrashMode::Seeded);
        read_at(&mut m, 0, 1 << 20)
    };
    assert_eq!(run(42), run(42), "same seed, same post-crash state");
    assert_ne!(run(42), run(43), "different seed, different state");

    // every logical block is either fully old (0) or fully new
    let img = run(42);
    for (b, block) in img.chunks(LBS as usize).enumerate() {
        let uniform = block.iter().all(|&x| x == block[0]);
        assert!(uniform, "block {b} is torn inside the logical block");
    }
}

#[test]
fn errored_write_may_partially_persist() {
    let mut m = model(
        7,
        Policy { error_pm: 1000, ..Policy::default() },
    );
    let res = m.write(0, &[5u8; 32768]);
    assert_eq!(res, -libc::EIO);
    m.flush();
    // whatever partial prefix entered the cache is now committed; each
    // block is uniformly old or new
    let img = read_at(&mut m, 0, 32768);
    for block in img.chunks(LBS as usize) {
        assert!(block.iter().all(|&x| x == block[0]));
    }
}

#[test]
fn cache_cap_forces_autonomous_writeback() {
    let mut m = model(1, Policy::default());
    // 768K written into a 512K cache: the oldest ~256K must self-commit
    for i in 0..6u64 {
        m.write(i * (1 << 17), &vec![(i + 1) as u8; 1 << 17]);
    }
    assert!(m.stats.autonomous_writebacks > 0);
    m.crash(CrashMode::Drop);
    assert_eq!(
        read_at(&mut m, 0, 1 << 17),
        vec![1u8; 1 << 17],
        "oldest write was written back before the crash"
    );
}

#[test]
fn discard_reads_zero_but_can_be_undone_by_crash() {
    let mut m = model(1, Policy::default());
    m.write(0, &[3u8; 8192]);
    m.flush();
    m.discard(0, 8192);
    assert_eq!(read_at(&mut m, 0, 8192), vec![0u8; 8192]);
    m.crash(CrashMode::Drop); // discard was volatile
    assert_eq!(read_at(&mut m, 0, 8192), vec![3u8; 8192]);
}

#[test]
fn a_write_says_how_much_it_took() {
    let mut m = model(1, Policy::default());
    assert_eq!(m.write(0, &[1u8; 8192]), 8192);
    assert_eq!(m.volatile_bytes(), 8192);
    m.flush();
    assert_eq!(m.volatile_bytes(), 0);
    assert_eq!((m.stats.writes, m.stats.flushes), (1, 1));
}

#[test]
fn writeback_starts_past_the_capacity() {
    let mut m = model(1, Policy::default());
    for i in 0..4u64 {
        m.write(i << 17, &vec![1u8; 1 << 17]);
    }
    assert_eq!(m.volatile_bytes(), 1 << 19);
    assert_eq!(m.stats.autonomous_writebacks, 0);
    m.write(0, &[2u8; 4096]);
    assert_eq!(m.stats.autonomous_writebacks, 1);
    assert_eq!(m.volatile_bytes(), 3 * (1 << 17) + 4096);
}

#[test]
fn a_dropping_crash_reports_every_entry_dropped() {
    let mut m = model(1, Policy::default());
    for i in 0..5u64 {
        m.write(i * 4096, &[1u8; 4096]);
    }
    assert_eq!(
        m.crash(CrashMode::Drop),
        CrashReport { committed: 0, dropped: 5, torn: 0 }
    );
    assert_eq!(m.volatile_bytes(), 0);
    assert_eq!(m.stats.crashes, 1);
}

#[test]
fn a_seeded_crash_accounts_for_every_entry() {
    let mut m = model(42, Policy::default());
    for i in 0..32u64 {
        m.write(i * 8192, &[1u8; 8192]);
    }
    let report = m.crash(CrashMode::Seeded);
    assert_eq!(report.committed + report.dropped + report.torn, 32);
    assert!(report.committed > 0 && report.dropped > 0);
}

#[test]
fn flushes_do_not_change_what_is_read() {
    let mut m = model(1, Policy::default());
    m.write(100, &[1u8; 5000]);
    m.discard(200, 50);
    m.write(240, &[2u8; 20]);
    let before = read_at(&mut m, 0, 8192);
    m.flush();
    assert_eq!(read_at(&mut m, 0, 8192), before);
    assert_eq!((before[199], before[200], before[240], before[260]), (1, 0, 2, 1));
}

/// The same writes, crashed with other seeds, can leave another device.
#[test]
fn the_seed_decides_what_a_crash_leaves() {
    let left = |seed: u64| {
        let mut m = model(seed, Policy::default());
        m.write(4096, &[9u8; 4096]);
        m.crash(CrashMode::Seeded);
        read_at(&mut m, 4096, 4096)
    };
    assert_eq!(left(42), vec![9u8; 4096]);
    assert_eq!(left(43), vec![0u8; 4096]);
}
