use ublkera::chaos::{pick_op, pieces, random_write, Harness, Op};
use ublkera::episode::{Action, Event, Leave, Next, Phase, Plan, Purpose, Task, WriterLog};
use ublkera::manager::{DeviceManager, DeviceSpec, Startup};
use ublkera::rng::Rng;
use ublkera::target::{IoPhase, IoTurn};
use ublkera::ublk::{IoCmd, UBLK_IO_OP_WRITE};

/// A daemon with one device, in memory.
struct World {
    manager: DeviceManager,
    spec: DeviceSpec,
    backing: Vec<u8>,
    meta: Option<Vec<u8>>,
    ticket: u64,
    ids: Rng,
    logs: Vec<WriterLog>,
    /// writes of one block go unstamped
    forgetful: bool,
}

impl World {
    fn new(h: &Harness, forgetful: bool) -> World {
        World {
            manager: DeviceManager::new(),
            spec: DeviceSpec {
                backing: "b".to_string(),
                granularity: h.gran,
                meta: Some("m".to_string()),
                dev_id: -1,
                queues: h.queues,
                depth: 64,
                buf_size: 512 * 1024,
                buffered: h.buffered,
            },
            backing: vec![0u8; h.size as usize],
            meta: None,
            ticket: 0,
            ids: Rng(77),
            logs: Vec::new(),
            forgetful,
        }
    }

    fn write(&mut self, off: u64, data: &[u8]) {
        let cmd = IoCmd { op: UBLK_IO_OP_WRITE, off, len: data.len() as u64 };
        let turn = self.manager.on_io(self.ticket, cmd, IoPhase::Driver);
        assert!(matches!(turn, Some(IoTurn::Submit { .. })));
        self.backing[off as usize..off as usize + data.len()].copy_from_slice(data);
        if !(self.forgetful && data.len() == 4096) {
            let res = data.len() as i32;
            let turn = self.manager.on_io(self.ticket, cmd, IoPhase::Backend { res });
            assert_eq!(turn, Some(IoTurn::Complete { res }));
        }
    }

    fn attach(&mut self) -> Result<String, String> {
        let generation = self.ids.next();
        let started = match self.manager.begin_add(
            &self.spec,
            self.backing.len() as u64,
            self.meta.clone(),
            generation,
        ) {
            Ok(started) => started,
            Err(e) => return Err(e.message()),
        };
        self.ticket = started.ticket;
        self.meta = started.marker.clone();
        match self.manager.finish_add(&started, &self.spec, Startup::Ready { dev_id: 0 }) {
            Ok(r) => Ok(format!(
                "{{\"ok\":true,\"dev_id\":{},\"generation\":\"{}\",\"recovered_unclean\":{}}}",
                r.dev_id, r.generation, r.recovered_unclean
            )),
            Err(e) => Err(e.message()),
        }
    }

    fn perform(&mut self, action: Action) -> Event {
        let done = Event::Finished { res: Ok(()) };
        match action {
            Action::StartDaemon => {
                self.manager = DeviceManager::new();
                done
            }
            Action::Attach => Event::Replied { reply: self.attach() },
            Action::Open { path } => {
                assert_eq!(path, "/dev/ublkb0");
                done
            }
            Action::Write { off, data } => {
                self.write(off, &data);
                Event::Wrote { off, data, done: Ok(()) }
            }
            Action::ReadAll | Action::ReadBacking => Event::Image { image: Ok(self.backing.clone()) },
            Action::ReadRanges { ranges } => {
                let mut list = Vec::new();
                for (off, len) in ranges {
                    for (at, n) in pieces(off, len) {
                        let data = self.backing[at as usize..(at + n) as usize].to_vec();
                        list.push((at, data));
                    }
                }
                Event::Pieces { pieces: list, failed: None }
            }
            Action::Checkpoint { dev_id } => {
                let r = self.manager.checkpoint(dev_id as u32).unwrap();
                self.meta = r.save.map(|(_, raw)| raw);
                Event::Replied { reply: Ok(format!("{{\"closed_era\":{}}}", r.closed_era)) }
            }
            Action::Dump { dev_id, since, generation } => {
                let reply = match self.manager.dump(dev_id as u32, since, Some(generation)) {
                    Ok(d) => {
                        let list: Vec<String> = d
                            .ranges
                            .iter()
                            .map(|r| format!("{{\"offset\":{},\"len\":{}}}", r.offset, r.len))
                            .collect();
                        Ok(format!("{{\"ranges\":[{}]}}", list.join(",")))
                    }
                    Err(e) => Err(e.message()),
                };
                Event::Replied { reply }
            }
            Action::Detach { dev_id } => {
                let gone = self.manager.del(dev_id as u32).unwrap();
                self.meta = self.manager.retire(gone.ticket);
                done
            }
            Action::Kill => done,
            Action::AwaitGone { dev_id } => {
                assert_eq!(dev_id, 0);
                done
            }
            Action::RemoveMeta => {
                self.meta = None;
                done
            }
            Action::StartWriters { path, slice, seeds } => {
                assert_eq!(path, "/dev/ublkb0");
                self.logs = Vec::new();
                for (t, seed) in seeds.into_iter().enumerate() {
                    let base = t as u64 * slice;
                    let mut rng = Rng(seed);
                    let mut log = WriterLog { ok: Vec::new(), undefined: Vec::new() };
                    for _ in 0..3 {
                        let (off, data) = random_write(&mut rng, base, slice);
                        self.write(off, &data);
                        assert!(log.logged(off, data, true));
                    }
                    // the last one is torn by the kill
                    let (off, data) = random_write(&mut rng, base, slice);
                    let half = data.len() / 2;
                    self.backing[off as usize..off as usize + half].copy_from_slice(&data[..half]);
                    assert!(!log.logged(off, data, false));
                    self.logs.push(log);
                }
                done
            }
            Action::Sleep { ms } => {
                assert!((50..300).contains(&ms));
                done
            }
            Action::StopWriters => {
                let logs = std::mem::take(&mut self.logs);
                Event::Logs { logs, failed: None }
            }
            Action::Shutdown => done,
        }
    }

    fn drive(&mut self, h: &mut Harness, rng: &mut Rng, task: Task) -> Result<(), String> {
        let mut next = h.begin(rng, task);
        loop {
            match next {
                Next::Do { action, phase } => {
                    let event = self.perform(action);
                    next = h.resume(rng, phase, event);
                }
                Next::Done => return Ok(()),
                Next::Fail { why } => return Err(why),
            }
        }
    }
}

fn harness(seed: u64) -> (Harness, Rng) {
    let mut rng = Rng(seed);
    match Harness::setup(0, 65 * 4096, false, &mut rng) {
        Ok(h) => (h, rng),
        Err(e) => panic!("{e}"),
    }
}

/// Everything that a consumer is promised holds through whole episodes.
#[test]
fn episodes_pass() {
    for seed in 1..=6 {
        let (mut h, mut rng) = harness(seed);
        let mut world = World::new(&h, false);
        let mut plan = Plan::new(60);
        let mut lines = Vec::new();
        while let Some(task) = plan.next_task(&mut rng) {
            if let Err(e) = world.drive(&mut h, &mut rng, task) {
                panic!("seed {seed}: {}", plan.failed(false, &e));
            }
            lines.extend(plan.progress(&h));
        }
        assert_eq!(lines.len(), 1);
        assert!(lines[0].starts_with("CHAOS: op 50/60 (writes="));
        assert!(h.n.writes > 0 && h.n.backups > 0);
        assert!(world.backing == h.expected);
        assert!(h.dev_id.is_none());
    }
}

/// A single silently missing chunk fails an episode.
#[test]
fn a_lost_stamp_is_noticed() {
    let mut found = false;
    for seed in 1..=6 {
        let (mut h, mut rng) = harness(seed);
        let mut world = World::new(&h, true);
        world.drive(&mut h, &mut rng, Task::Boot).unwrap();
        for _ in 0..200 {
            let op = if rng.below(4) == 0 { Op::BackupVerify } else { Op::WriteBurst };
            if let Err(e) = world.drive(&mut h, &mut rng, Task::Op { op }) {
                assert!(e.starts_with("CBT (backup image vs device) MISMATCH"), "{e}");
                found = true;
                break;
            }
        }
    }
    assert!(found);
}

#[test]
fn each_operation_leaves_its_mark() {
    let (mut h, mut rng) = harness(3);
    let mut world = World::new(&h, false);
    world.drive(&mut h, &mut rng, Task::Boot).unwrap();
    let all = [
        Op::WriteBurst,
        Op::Checkpoint,
        Op::BackupVerify,
        Op::WriteBurst,
        Op::BackupVerify,
        Op::Reattach,
        Op::Crash,
        Op::CrashInflight,
        Op::BackupVerify,
        Op::LoseMeta,
        Op::BackupVerify,
    ];
    for op in all {
        world.drive(&mut h, &mut rng, Task::Op { op }).unwrap();
    }
    assert_eq!((h.n.bursts, h.n.backups, h.n.full_copies), (2, 4, 2));
    assert_eq!((h.n.checkpoints, h.n.reattaches, h.n.crashes), (5, 1, 1));
    assert_eq!((h.n.inflight_crashes, h.n.interrupted, h.n.meta_losses), (1, 4, 1));
    assert_eq!(h.journal[1], "checkpoint: closed era 1");
    assert_eq!(h.journal[2], "backup: full copy (no cursor)");
    assert!(h.journal[4].starts_with("backup: incremental since ("));
    assert_eq!(h.journal[7], "in-flight crash: 12 completed writes survived, 4 interrupted");
    assert!(h.journal[10].starts_with("backup: cursor rejected (generation "));
    assert_eq!(h.journal.len(), 11);
}

#[test]
fn failures_stop_an_operation() {
    let (mut h, mut rng) = harness(3);
    for op in [Op::Checkpoint, Op::BackupVerify, Op::Reattach, Op::LoseMeta, Op::CrashInflight] {
        match h.begin(&mut rng, Task::Op { op }) {
            Next::Fail { why } => assert_eq!(why, "not attached"),
            _ => panic!("not attached"),
        }
    }
    let event = Event::Wrote { off: 4096, data: vec![1; 8192], done: Err("EIO".to_string()) };
    match h.resume(&mut rng, Phase::Burst { count: 2, left: 2 }, event) {
        Next::Fail { why } => assert_eq!(why, "write 8192B at 4096: EIO"),
        _ => panic!("a failed write"),
    }
    let event = Event::Finished { res: Err("gone".to_string()) };
    match h.resume(&mut rng, Phase::RemovingMeta { was: "ab".to_string() }, event) {
        Next::Fail { why } => assert_eq!(why, "remove metadata: gone"),
        _ => panic!("a failed removal"),
    }
    let event = Event::Replied { reply: Ok("{}".to_string()) };
    match h.resume(&mut rng, Phase::Closing { last: false, dev_id: 0 }, event) {
        Next::Fail { why } => assert_eq!(why, "no closed_era"),
        _ => panic!("a reply without the era"),
    }
    let event = Event::Image { image: Ok(vec![1u8; 4096]) };
    match h.resume(&mut rng, Phase::ReadingBacking, event) {
        Next::Fail { why } => {
            assert_eq!(why, "backing file after detach differs from everything written")
        }
        _ => panic!("another image"),
    }
}

#[test]
fn a_plan_runs_from_start_to_shutdown() {
    let mut rng = Rng(4);
    let mut copy = Rng(4);
    let mut plan = Plan::new(2);
    assert_eq!(plan.next_task(&mut rng), Some(Task::Boot));
    assert_eq!(plan.failed(false, "x"), "x");
    assert_eq!(plan.next_task(&mut rng), Some(Task::Op { op: pick_op(&mut copy) }));
    assert_eq!(plan.failed(false, "x"), "op 1/2 failed: x");
    assert_eq!(plan.next_task(&mut rng), Some(Task::Op { op: pick_op(&mut copy) }));
    assert_eq!(plan.failed(false, "x"), "op 2/2 failed: x");
    assert_eq!(plan.next_task(&mut rng), Some(Task::WindDown));
    assert_eq!(plan.failed(true, "x"), "final backup: x");
    assert_eq!(plan.failed(false, "x"), "x");
    assert_eq!(plan.next_task(&mut rng), None);
    assert_eq!(rng.0, copy.0);
    assert!(Phase::Checking { last: true }.is_last_backup());
    assert!(!Phase::Checking { last: false }.is_last_backup());
    assert!(!Phase::ReadingBacking.is_last_backup());
}

fn finished(res: Result<(), &str>) -> Event {
    Event::Finished { res: res.map_err(|e| e.to_string()) }
}

/// The device is forgotten once it was told to go, before its node is gone.
#[test]
fn a_device_that_was_told_to_go_is_forgotten() {
    let leave = || Leave::Reattach { was: "ab".to_string() };
    let (mut h, mut rng) = harness(3);

    // the request itself fails: the device is still there
    h.dev_id = Some(7);
    match h.resume(&mut rng, Phase::Leaving { leave: leave() }, finished(Err("busy"))) {
        Next::Fail { why } => assert_eq!(why, "busy"),
        _ => panic!("a refused detach"),
    }
    assert_eq!(h.dev_id, Some(7));

    // the request succeeds: only the node is waited for
    match h.resume(&mut rng, Phase::Leaving { leave: leave() }, finished(Ok(()))) {
        Next::Do { action: Action::AwaitGone { dev_id }, phase: Phase::Vanishing { .. } } => {
            assert_eq!(dev_id, 7)
        }
        _ => panic!("a wait"),
    }
    assert_eq!(h.dev_id, None);
    match h.resume(&mut rng, Phase::Vanishing { leave: leave() }, finished(Err("timed out"))) {
        Next::Fail { why } => assert_eq!(why, "timed out"),
        _ => panic!("a node that stays"),
    }
    assert_eq!(h.dev_id, None);
    match h.resume(&mut rng, Phase::Vanishing { leave: leave() }, finished(Ok(()))) {
        Next::Do {
            action: Action::Attach,
            phase: Phase::Attaching { purpose: Purpose::Reattach { was } },
        } => assert_eq!(was, "ab"),
        _ => panic!("the next attach"),
    }

    // a daemon without a device leaves no node to wait for
    let leave = Leave::Recover { was: "ab".to_string() };
    assert!(matches!(
        h.resume(&mut rng, Phase::Leaving { leave }, finished(Ok(()))),
        Next::Do { action: Action::StartDaemon, .. }
    ));
}

/// What was read or written before a failure still counts.
#[test]
fn failures_keep_what_came_before() {
    let (mut h, mut rng) = harness(3);
    h.cursor = Some(("ab".to_string(), 1));
    let event = Event::Pieces {
        pieces: vec![(4096, vec![1u8; 4096])],
        failed: Some("EIO".to_string()),
    };
    let phase = Phase::Copying { last: false, closed: 2, ranges: 2, broken: None };
    match h.resume(&mut rng, phase, event) {
        Next::Fail { why } => assert_eq!(why, "EIO"),
        _ => panic!("a failed read"),
    }
    assert_eq!((h.shadow[4095], h.shadow[4096], h.shadow[8191], h.shadow[8192]), (0, 1, 1, 0));

    let event = Event::Pieces { pieces: vec![(0, vec![2u8; 4096])], failed: None };
    let broken = Some("range len".to_string());
    let phase = Phase::Copying { last: false, closed: 2, ranges: 1, broken };
    match h.resume(&mut rng, phase, event) {
        Next::Fail { why } => assert_eq!(why, "range len"),
        _ => panic!("a broken range"),
    }
    assert_eq!((h.shadow[0], h.shadow[4096]), (2, 1));
    assert_eq!((h.n.backups, h.journal.len()), (0, 0));

    let log = WriterLog { ok: vec![(8192, vec![3u8; 4096])], undefined: vec![(0, 4096)] };
    let event = Event::Logs { logs: vec![log], failed: Some("writer panicked".to_string()) };
    match h.resume(&mut rng, Phase::WritersStopping { was: "ab".to_string() }, event) {
        Next::Fail { why } => assert_eq!(why, "writer panicked"),
        _ => panic!("a lost writer"),
    }
    assert_eq!((h.expected[8191], h.expected[8192], h.expected[12287]), (0, 3, 3));
    assert_eq!(h.n.writes, 0);

    let event = Event::Pieces {
        pieces: vec![(0, vec![4u8; 4096])],
        failed: Some("EIO".to_string()),
    };
    assert!(matches!(
        h.resume(&mut rng, Phase::Adopting { completed: 1, interrupted: 1 }, event),
        Next::Fail { .. }
    ));
    assert_eq!((h.expected[0], h.expected[4096]), (4, 0));
}

#[test]
fn writers_stop_at_the_first_failure() {
    let mut log = WriterLog { ok: Vec::new(), undefined: Vec::new() };
    assert!(log.logged(4096, vec![1u8; 4096], true));
    assert!(log.logged(0, vec![2u8; 8192], true));
    assert!(!log.logged(8192, vec![3u8; 12288], false));
    assert_eq!(log.ok, vec![(4096, vec![1u8; 4096]), (0, vec![2u8; 8192])]);
    assert_eq!(log.undefined, vec![(8192, 12288)]);
}
