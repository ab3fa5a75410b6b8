use ublkera::chaos::{
    burst_size, closed_era, diff_ranges, inflight_delay, pick_op, pieces, random_write,
    reply_closed_era, reply_closed_shown, reply_fault, reply_recovered, Harness, Op, MAX_WRITE,
};
use ublkera::rng::Rng;

fn harness(size: u64, gran: u64) -> Harness {
    match Harness::setup(gran, size, true, &mut Rng(1)) {
        Ok(h) => h,
        Err(e) => panic!("{e}"),
    }
}

#[test]
fn episodes_derive_from_the_seed() {
    for seed in 0..20 {
        let mut rng = Rng(seed);
        let gran = [4096u64, 16384, 65536, 262144][rng.below(4) as usize];
        let size = 32 * (1 << 20) + 4096 * rng.below(16);
        let queues = [1u16, 2, 4][rng.below(3) as usize];
        let mut other = Rng(seed);
        let h = Harness::setup(0, 0, false, &mut other).ok().unwrap();
        assert_eq!((h.gran, h.size, h.queues, h.buffered), (gran, size, queues, false));
        assert_eq!(other.0, rng.0);
        assert_eq!((h.expected.len() as u64, h.shadow.len() as u64), (size, size));
    }
    assert_eq!(
        Harness::setup(0, 5000, false, &mut Rng(1)).err().unwrap(),
        "--size must be a multiple of 4096"
    );
}

#[test]
fn operations_by_their_weight() {
    for seed in 0..500 {
        let want = match Rng(seed).below(100) {
            0..=44 => Op::WriteBurst,
            45..=59 => Op::BackupVerify,
            60..=69 => Op::Checkpoint,
            70..=79 => Op::Reattach,
            80..=87 => Op::Crash,
            88..=95 => Op::CrashInflight,
            _ => Op::LoseMeta,
        };
        assert_eq!(pick_op(&mut Rng(seed)), want);
    }
}

#[test]
fn random_writes_stay_in_their_slice() {
    let mut rng = Rng(9);
    let mut copy = Rng(9);
    for _ in 0..50 {
        let (off, data) = random_write(&mut rng, 1 << 20, 1 << 20);
        let want_off = (1 << 20) + 4096 * copy.below(256);
        let max = MAX_WRITE.min((2 << 20) - want_off);
        let mut want = vec![0u8; (4096 * (1 + copy.below(max / 4096))) as usize];
        copy.fill(&mut want);
        assert_eq!(off, want_off);
        assert!(data == want);
    }
    let count = burst_size(&mut rng);
    assert_eq!(count, 1 + copy.below(24));
    assert_eq!(inflight_delay(&mut rng), 50 + copy.below(250));
}

#[test]
fn differences_are_counted_in_chunks() {
    let h = harness(10 * 4096, 16384);
    let model = vec![0u8; 10 * 4096];
    let mut actual = model.clone();
    assert_eq!(h.diff("x", &actual, &model), Ok(()));
    actual[5] = 1;
    actual[20000] = 1;
    actual[20001] = 1;
    actual[10 * 4096 - 1] = 1;
    assert_eq!(
        h.diff("x", &actual, &model),
        Err("x MISMATCH: first differing byte at 5 (chunk 0), 3 of 3 chunks differ".to_string())
    );
    actual[5] = 0;
    assert_eq!(
        h.diff("x", &actual, &model),
        Err("x MISMATCH: first differing byte at 20000 (chunk 1), 2 of 3 chunks differ".to_string())
    );
}

#[test]
fn both_invariants_are_checked() {
    let mut h = harness(8192, 4096);
    h.write_done(4096, &[1u8; 4096]);
    let mut actual = vec![0u8; 8192];
    assert!(h.verify(&actual).err().unwrap().starts_with("passthrough (device vs expected) MISMATCH"));
    actual[4096..].fill(1);
    assert!(h.verify(&actual).err().unwrap().starts_with("CBT (backup image vs device) MISMATCH"));
    h.shadow = actual.clone();
    assert_eq!(h.verify(&actual), Ok(()));
}

#[test]
fn long_reads_are_made_in_pieces() {
    assert_eq!(pieces(4096, 0), []);
    assert_eq!(pieces(4096, 4096), [(4096, 4096)]);
    assert_eq!(
        pieces(4096, (2 << 20) + 1),
        [(4096, 1 << 20), (4096 + (1 << 20), 1 << 20), (4096 + (2 << 20), 1)]
    );
}

#[test]
fn diffs_are_read_from_replies() {
    assert_eq!(
        diff_ranges("{\"ranges\":[{\"offset\":0,\"len\":4096},{\"offset\":8192,\"len\":1}]}"),
        (vec![(0, 4096), (8192, 1)], None)
    );
    let broken = |text: &str, ranges: Vec<(u64, u64)>, why: &str| {
        assert_eq!(diff_ranges(text), (ranges, Some(why.to_string())));
    };
    assert_eq!(diff_ranges("{\"ranges\":[]}"), (vec![], None));
    broken("{}", vec![], "dump: no ranges");
    broken("{\"ranges\":[{\"len\":1}]}", vec![], "range offset");
    broken("{\"ranges\":[{\"offset\":1}]}", vec![], "range len");
    // the ranges before a broken one still count
    broken(
        "{\"ranges\":[{\"offset\":0,\"len\":4096},{\"offset\":1},{\"offset\":2,\"len\":3}]}",
        vec![(0, 4096)],
        "range len",
    );
}

#[test]
fn readings_of_replies() {
    assert_eq!(reply_closed_era("{\"closed_era\":7}"), Some(7));
    assert_eq!(reply_closed_era("{}"), None);
    assert_eq!(reply_closed_shown("{\"closed_era\":7}").as_deref(), Some("7"));
    assert_eq!(reply_closed_shown("{}").as_deref(), Some("null"));
    assert_eq!(reply_recovered("{\"recovered_unclean\":true}"), Some(true));
    assert_eq!(reply_recovered("{\"recovered_unclean\":\"yes\"}"), None);
    assert_eq!(reply_fault("{}"), None);
    assert_eq!(
        reply_fault("").as_deref(),
        Some("EOF while parsing a value at line 1 column 0")
    );
    assert_eq!(closed_era(Some(7)), Ok(7));
    assert_eq!(closed_era(Some((1 << 32) + 7)), Ok(7));
    assert_eq!(closed_era(None), Err("no closed_era".to_string()));
}

#[test]
fn attaching_takes_the_id_and_the_history() {
    let mut h = harness(8192, 4096);
    assert_eq!(h.bdev(), Err("not attached".to_string()));
    assert_eq!(
        h.add_args("/b", "/m"),
        ["add", "-f", "/b", "-g", "4096", "-q", &h.queues.to_string(), "--meta", "/m", "--buffered"]
    );
    assert_eq!(h.attach_reply("{}"), Err("add: no dev_id".to_string()));
    assert_eq!(h.attach_reply("{\"dev_id\":4}"), Err("add: no generation".to_string()));
    assert_eq!(h.attach_reply("{\"dev_id\":4,\"generation\":\"ab\"}"), Ok(()));
    assert_eq!(h.bdev(), Ok("/dev/ublkb4".to_string()));
    assert_eq!(h.detached(), Some(4));
    assert_eq!(h.detached(), None);
}

#[test]
fn histories_are_compared_across_attaches() {
    let mut h = harness(8192, 4096);
    h.generation = "ab".to_string();
    assert_eq!(h.reattached("ab", Some(false)), Ok(()));
    assert_eq!(
        h.reattached("ab", Some(true)),
        Err("clean detach was flagged recovered_unclean".to_string())
    );
    assert_eq!(
        h.reattached("cd", None),
        Err("generation changed across clean re-attach (cd -> ab)".to_string())
    );
    assert_eq!(h.recovered("ab", Some(true)), Ok(()));
    assert_eq!(
        h.recovered("ab", None),
        Err("crash recovery not flagged recovered_unclean".to_string())
    );
    assert_eq!(
        h.meta_lost("ab", None),
        Err("generation must change when metadata is lost".to_string())
    );
    assert_eq!(h.meta_lost("cd", None), Ok(None));
    h.cursor = Some(("cd".to_string(), 3));
    assert_eq!(h.meta_lost("cd", None), Ok(Some(("cd".to_string(), 3))));
    assert_eq!(
        h.meta_loss_done(true),
        Err("cursor from the lost history was accepted by dump".to_string())
    );
    assert_eq!(h.meta_loss_done(false), Ok(()));
    assert_eq!((h.n.reattaches, h.n.crashes, h.n.meta_losses), (1, 1, 1));
    assert_eq!(
        h.journal,
        [
            "reattach: clean",
            "crash: SIGKILL + recover (unclean flagged)",
            "meta loss: fresh generation, old cursor rejected"
        ]
    );
}

#[test]
fn lines_of_an_episode() {
    let mut h = harness(8192, 4096);
    h.queues = 2;
    assert_eq!(
        h.start_line(5, 200),
        "CHAOS: seed=5 ops=200 size=8192 granularity=4096 queues=2 buffered=true"
    );
    h.n.writes = 9;
    h.n.bursts = 2;
    h.n.backups = 3;
    h.n.full_copies = 1;
    h.n.checkpoints = 4;
    h.n.reattaches = 5;
    h.n.crashes = 6;
    h.n.inflight_crashes = 7;
    h.n.interrupted = 8;
    h.n.meta_losses = 10;
    assert_eq!(
        h.progress_line(50, 200),
        "CHAOS: op 50/200 (writes=9 backups=3 crashes=6 reattaches=5 meta_losses=10)"
    );
    assert_eq!(
        h.pass_line(5),
        "CHAOS-PASS seed=5: 9 writes in 2 bursts, 3 backups (1 full), 4 checkpoints, \
         5 reattaches, 6 crashes (+7 in-flight, 8 writes interrupted), 10 meta losses"
    );
    assert_eq!(h.journal_tail(), 0);
    for i in 0..25 {
        h.note(format!("{i}"));
    }
    assert_eq!(h.journal_tail(), 5);
}
