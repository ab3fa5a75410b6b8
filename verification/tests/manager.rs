use ublkera::ctl::{dispatch, Dispatch, Request, DEFAULT_SOCK};
use ublkera::manager::{
    default_buf_size, default_depth, default_dev_id, default_granularity, default_queues,
    DeviceManager, DeviceSpec, ManagerError, Startup, Target,
};
use ublkera::target::{IoPhase, IoTurn};
use ublkera::ublk::{IoCmd, UBLK_IO_OP_WRITE};

const SIZE: u64 = 1 << 20;

fn spec(backing: &str, meta: Option<&str>) -> DeviceSpec {
    DeviceSpec {
        backing: backing.to_string(),
        granularity: 65536,
        meta: meta.map(|m| m.to_string()),
        dev_id: -1,
        queues: 1,
        depth: 64,
        buf_size: 512 * 1024,
        buffered: false,
    }
}

fn attach(m: &mut DeviceManager, backing: &str, meta: Option<&str>, id: u32) -> u64 {
    let s = spec(backing, meta);
    let started = m.begin_add(&s, SIZE, None, 0x9f3b_2a1c_8d4e_6f01).unwrap();
    m.finish_add(&started, &s, Startup::Ready { dev_id: id }).unwrap();
    started.ticket
}

fn write(m: &mut DeviceManager, ticket: u64, off: u64, len: u64) {
    let cmd = IoCmd { op: UBLK_IO_OP_WRITE, off, len };
    let turn = m.on_io(ticket, cmd, IoPhase::Backend { res: len as i32 });
    assert_eq!(turn, Some(IoTurn::Complete { res: len as i32 }));
}

fn by_id(id: u32) -> Target {
    Target { dev_id: Some(id), backing: None }
}

fn by_path(path: &str) -> Target {
    Target { dev_id: None, backing: Some(path.to_string()) }
}

#[test]
fn defaults_of_a_request() {
    assert_eq!(default_granularity(), 65536);
    assert_eq!(default_dev_id(), -1);
    assert_eq!(default_queues(), 1);
    assert_eq!(default_depth(), 64);
    assert_eq!(default_buf_size(), 524288);
    assert_eq!(DEFAULT_SOCK, "/run/ublkera/daemon.sock");
}

#[test]
fn a_device_comes_and_goes() {
    let mut m = DeviceManager::new();
    let s = spec("/a", Some("/a.meta"));
    let started = m.begin_add(&s, SIZE, None, 0x9f3b_2a1c_8d4e_6f01).unwrap();
    assert!(!started.recovered_unclean);
    // the marker that a crash would leave is unclean
    let marker = started.marker.clone().unwrap();
    assert_eq!(marker[40..44], [0, 0, 0, 0]);
    let reply = m.finish_add(&started, &s, Startup::Ready { dev_id: 3 }).unwrap();
    assert_eq!((reply.dev_id, reply.dev_size, reply.granularity), (3, SIZE, 65536));
    assert_eq!(reply.generation, "9f3b2a1c8d4e6f01");
    assert_eq!((reply.current_era, reply.recovered_unclean), (1, false));

    write(&mut m, started.ticket, 65536 * 4, 4096);
    let status = m.status(3).unwrap();
    assert_eq!((status.nr_chunks, status.written_chunks), (16, 1));
    assert_eq!(status.meta_path.as_deref(), Some("/a.meta"));
    assert_eq!(status.backing, "/a");

    let gone = m.del(3).unwrap();
    assert_eq!(gone.backing, "/a");
    assert_eq!(m.del(3).err().unwrap().message(), "device 3 is not managed by this daemon");
    // IO goes on until the supervisor is done
    write(&mut m, started.ticket, 65536 * 7, 4096);
    let raw = m.retire(started.ticket).unwrap();
    assert_eq!(raw[40..44], [1, 0, 0, 0]);
    assert!(m.retire(started.ticket).is_none());
    let cmd = IoCmd { op: UBLK_IO_OP_WRITE, off: 0, len: 512 };
    assert_eq!(m.on_io(started.ticket, cmd, IoPhase::Driver), None);

    // a clean re-attach continues the history
    let started = m.begin_add(&s, SIZE, Some(raw), 1).unwrap();
    assert!(!started.recovered_unclean);
    let reply = m.finish_add(&started, &s, Startup::Ready { dev_id: 0 }).unwrap();
    assert_eq!(reply.generation, "9f3b2a1c8d4e6f01");
    assert_eq!(m.status(0).unwrap().written_chunks, 2);
}

#[test]
fn a_crash_turns_the_whole_device_dirty() {
    let mut m = DeviceManager::new();
    let s = spec("/a", Some("/a.meta"));
    let started = m.begin_add(&s, SIZE, None, 5).unwrap();
    m.finish_add(&started, &s, Startup::Ready { dev_id: 0 }).unwrap();
    let (path, saved) = m.checkpoint(0).unwrap().save.unwrap();
    assert_eq!(path, "/a.meta");

    // the daemon dies here
    let mut m = DeviceManager::new();
    let started = m.begin_add(&s, SIZE, Some(saved), 6).unwrap();
    assert!(started.recovered_unclean);
    let reply = m.finish_add(&started, &s, Startup::Ready { dev_id: 0 }).unwrap();
    assert!(reply.recovered_unclean);
    assert_eq!((reply.current_era, reply.generation), (2, "0000000000000005".to_string()));
    let dump = m.dump(0, 1, None).unwrap();
    assert_eq!((dump.dirty_bytes, dump.ranges.len()), (SIZE, 1));
}

#[test]
fn reasons_not_to_attach() {
    let mut m = DeviceManager::new();
    attach(&mut m, "/a", None, 0);
    let refuse = |m: &mut DeviceManager, s: &DeviceSpec, size: u64, saved: Option<Vec<u8>>| {
        m.begin_add(s, size, saved, 1).err().unwrap().message()
    };
    assert_eq!(
        refuse(&mut m, &spec("/b", None), 0, None),
        "backing size 0 must be a non-zero multiple of 512"
    );
    assert_eq!(
        refuse(&mut m, &spec("/b", None), 1000, None),
        "backing size 1000 must be a non-zero multiple of 512"
    );
    assert_eq!(refuse(&mut m, &spec("/a", None), SIZE, None), "'/a' is already attached");
    let mut odd = spec("/b", None);
    odd.granularity = 1000;
    assert_eq!(
        refuse(&mut m, &odd, SIZE, None),
        "granularity must be a power of two >= 4096 (got 1000)"
    );
    assert_eq!(
        refuse(&mut m, &spec("/b", Some("/m")), SIZE, Some(vec![1, 2, 3])),
        "/m: truncated metadata file"
    );
    // size and backing are refused without a look at the metadata
    let check = |backing: &str, size: u64| m.check_add(backing, size).map_err(|e| e.message());
    assert_eq!(check("/b", SIZE), Ok(()));
    assert_eq!(check("/a", SIZE), Err("'/a' is already attached".to_string()));
    assert_eq!(
        check("/a", 511),
        Err("backing size 511 must be a non-zero multiple of 512".to_string())
    );
}

#[test]
fn a_device_that_does_not_start_is_not_registered() {
    let mut m = DeviceManager::new();
    let s = spec("/a", None);
    let causes = [
        (Startup::Failed { cause: "no driver".to_string() }, "start device for '/a': no driver"),
        (Startup::Disconnected, "supervisor for '/a' died during startup (panicked)"),
        (Startup::TimedOut, "device for '/a' did not come up within 15s"),
    ];
    for (outcome, words) in causes {
        let started = m.begin_add(&s, SIZE, None, 1).unwrap();
        assert!(started.marker.is_none());
        assert_eq!(m.finish_add(&started, &s, outcome).err().unwrap().message(), words);
        assert!(m.retire(started.ticket).is_some());
        assert!(m.ids().is_empty());
    }
}

#[test]
fn dumps_reject_cursors_of_other_histories() {
    let mut m = DeviceManager::new();
    let t = attach(&mut m, "/a", None, 0);
    write(&mut m, t, 0, 4096);
    m.checkpoint(0).unwrap();
    write(&mut m, t, 65536 * 3, 65536 * 2);
    let d = m.dump(0, 1, Some("9f3b2a1c8d4e6f01".to_string())).unwrap();
    assert_eq!((d.dev_id, d.current_era, d.since, d.granularity), (0, 2, 1, 65536));
    assert_eq!((d.dirty_bytes, d.ranges.len()), (65536 * 2, 1));
    assert_eq!((d.ranges[0].offset, d.ranges[0].len), (65536 * 3, 65536 * 2));
    assert_eq!(m.dump(0, 0, None).unwrap().dirty_bytes, 65536 * 3);

    assert_eq!(
        m.dump(0, 2, None).err().unwrap().message(),
        "since 2 is not in this device's era history"
    );
    assert!(matches!(
        m.dump(0, 1, Some("0000000000000001".to_string())),
        Err(ManagerError::OtherHistory { .. })
    ));
    assert_eq!(
        m.dump(9, 0, None).err().unwrap().message(),
        "device 9 is not managed by this daemon"
    );
}

#[test]
fn checkpoints_close_an_era_each() {
    let mut m = DeviceManager::new();
    attach(&mut m, "/a", None, 4);
    attach(&mut m, "/b", Some("/b.meta"), 2);
    let c = m.checkpoint(4).unwrap();
    assert_eq!((c.closed_era, c.current_era, c.save.is_none()), (1, 2, true));
    let all = m.checkpoint_all();
    let seen: Vec<(u32, u32, bool)> =
        all.iter().map(|c| (c.dev_id, c.closed_era, c.save.is_some())).collect();
    assert_eq!(seen, [(2, 1, true), (4, 2, false)]);
    assert!(m.checkpoint(7).is_err());
    let list: Vec<u32> = m.list().iter().map(|s| s.dev_id).collect();
    assert_eq!(list, [2, 4]);
}

#[test]
fn exited_devices_are_forgotten() {
    let mut m = DeviceManager::new();
    attach(&mut m, "/a", None, 0);
    attach(&mut m, "/b", None, 1);
    m.reap(&vec![0, 9]);
    assert_eq!(m.ids(), [1]);
    assert!(m.status(0).is_err());
}

#[test]
fn targets_by_id_and_by_path() {
    let mut m = DeviceManager::new();
    attach(&mut m, "/a", None, 5);
    attach(&mut m, "/b", None, 3);
    let canons = vec![(3, Some("/real".to_string())), (5, Some("/real5".to_string()))];
    let find = |t: &Target, canon: Option<&str>| {
        m.resolve(t, canon.map(|c| c.to_string()), &canons)
    };
    assert_eq!(find(&by_id(77), None).unwrap(), 77);
    assert_eq!(find(&by_path("/a"), None).unwrap(), 5);
    assert_eq!(find(&by_path("/link"), Some("/real")).unwrap(), 3);
    assert_eq!(
        find(&by_path("/c"), None).err().unwrap().message(),
        "no tracked device with backing '/c'"
    );
    let both = Target { dev_id: Some(5), backing: Some("/a".to_string()) };
    assert_eq!(
        find(&both, None).err().unwrap().message(),
        "specify either dev_id or backing, not both"
    );
    let none = Target { dev_id: None, backing: None };
    assert_eq!(find(&none, None).err().unwrap().message(), "request needs dev_id or backing");
}

#[test]
fn requests_are_served() {
    let mut m = DeviceManager::new();
    let t = attach(&mut m, "/a", Some("/a.meta"), 0);
    write(&mut m, t, 0, 512);
    let none: Vec<(u32, Option<String>)> = vec![(0, None)];

    let add = Request::Add { spec: spec("/b", None) };
    assert!(matches!(dispatch(&mut m, add, None, &none), Dispatch::Attach { .. }));
    let del = Request::Del { target: by_path("/a") };
    assert!(matches!(dispatch(&mut m, del, None, &none), Dispatch::Detach { dev_id: 0 }));
    match dispatch(&mut m, Request::List, None, &none) {
        Dispatch::List { list } => assert_eq!(list.len(), 1),
        _ => panic!("a list"),
    }
    match dispatch(&mut m, Request::Status { target: by_id(0) }, None, &none) {
        Dispatch::Status { status } => assert_eq!(status.written_chunks, 1),
        _ => panic!("a status"),
    }
    match dispatch(&mut m, Request::Status { target: by_id(8) }, None, &none) {
        Dispatch::Refused { why } => {
            assert_eq!(why.message(), "device 8 is not managed by this daemon")
        }
        _ => panic!("a refusal"),
    }
    assert!(m.can_checkpoint());
    match dispatch(&mut m, Request::Checkpoint { target: by_id(0) }, None, &none) {
        Dispatch::Checkpoint { checkpoint } => {
            assert_eq!((checkpoint.closed_era, checkpoint.current_era), (1, 2))
        }
        _ => panic!("a checkpoint"),
    }
    match dispatch(&mut m, Request::CheckpointAll, None, &none) {
        Dispatch::CheckpointAll { checkpoints } => assert_eq!(checkpoints[0].closed_era, 2),
        _ => panic!("checkpoints"),
    }
    let dump = Request::Dump { target: by_id(0), since: 0, generation: None };
    match dispatch(&mut m, dump, None, &none) {
        Dispatch::Dump { dump } => assert_eq!(dump.dirty_bytes, 65536),
        _ => panic!("a dump"),
    }
    let dump = Request::Dump { target: by_id(0), since: 3, generation: None };
    assert!(matches!(
        dispatch(&mut m, dump, None, &none),
        Dispatch::Refused { why: ManagerError::StaleCursor { since: 3 } }
    ));
    assert!(matches!(dispatch(&mut m, Request::Shutdown, None, &none), Dispatch::Shutdown));
}

/// A request by path is served as the one by the id of that device.
#[test]
fn paths_and_ids_are_served_alike() {
    let mut m = DeviceManager::new();
    let t = attach(&mut m, "/a", None, 5);
    attach(&mut m, "/b", None, 3);
    write(&mut m, t, 65536 * 2, 512);
    let canons = vec![(3, Some("/real".to_string())), (5, Some("/real5".to_string()))];
    let mut seen = Vec::new();
    for (target, canon) in [
        (by_id(5), None),
        (by_path("/a"), None),
        (by_path("/link"), Some("/real5".to_string())),
    ] {
        match dispatch(&mut m, Request::Status { target }, canon, &canons) {
            Dispatch::Status { status } => seen.push(format!("{status:?}")),
            _ => panic!("a status"),
        }
    }
    assert_eq!(seen[0], seen[1]);
    assert_eq!(seen[0], seen[2]);
    // a refused request changes nothing
    let target = by_path("/c");
    assert!(matches!(
        dispatch(&mut m, Request::Checkpoint { target }, None, &canons),
        Dispatch::Refused { .. }
    ));
    assert_eq!(format!("{:?}", m.status(5).unwrap()), seen[0]);
}
