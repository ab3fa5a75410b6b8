use ublkera::fault::{
    check_geometry, device_params, parse_size, perform, CtlFields, FaultDevice, Reply,
};
use ublkera::model::{Model, Policy};
use ublkera::ublk::{
    IoCmd, UBLK_IO_OP_DISCARD, UBLK_IO_OP_FLUSH, UBLK_IO_OP_READ, UBLK_IO_OP_WRITE,
    UBLK_IO_OP_WRITE_ZEROES,
};

fn device(policy: Policy) -> FaultDevice {
    FaultDevice::new(1 << 20, 4096, 1 << 19, 1, policy)
}

fn cmd(op: u32, off: u64, len: u64) -> IoCmd {
    IoCmd { op, off, len }
}

#[test]
fn sizes_of_the_fault_device() {
    assert_eq!(parse_size(" 64M\n"), Ok(64 << 20));
    assert_eq!(
        parse_size("lots"),
        Err("bad size 'lots': invalid digit found in string".to_string())
    );
}

#[test]
fn geometries() {
    assert!(check_geometry(64 << 20, 4096));
    assert!(check_geometry(512, 512));
    assert!(!check_geometry(0, 4096));
    assert!(!check_geometry(4096 + 512, 4096));
    assert!(!check_geometry(3 << 20, 3072));
    assert!(!check_geometry(1 << 20, 256));
}

#[test]
fn announces_its_block_size() {
    let p = device_params(64 << 20, 4096, 512 * 1024);
    assert_eq!(p.types, 3);
    assert_eq!((p.basic.attrs, p.basic.logical_bs_shift, p.basic.physical_bs_shift), (4, 12, 12));
    assert_eq!((p.basic.io_opt_shift, p.basic.io_min_shift), (12, 12));
    assert_eq!((p.basic.max_sectors, p.basic.dev_sectors), (1024, 131072));
    assert_eq!((p.discard.discard_granularity, p.discard.max_discard_sectors), (4096, 1 << 22));
    assert_eq!((p.discard.max_write_zeroes_sectors, p.discard.max_discard_segments), (1 << 22, 1));
    assert_eq!(device_params(1 << 20, 512, 4096).basic.logical_bs_shift, 9);
}

#[test]
fn serves_every_kind_of_request() {
    let mut m = Model::new(1 << 20, 4096, 1 << 19, 1, Policy::default());
    let mut buf = vec![7u8; 8192];
    assert_eq!(perform(&mut m, cmd(UBLK_IO_OP_WRITE, 4096, 4096), &mut buf), 4096);
    assert_eq!(perform(&mut m, cmd(UBLK_IO_OP_FLUSH, 0, 0), &mut buf), 0);
    assert_eq!(perform(&mut m, cmd(UBLK_IO_OP_READ, 0, 8192), &mut buf), 8192);
    assert_eq!(buf[..4096], [0u8; 4096]);
    assert_eq!(buf[4096..], [7u8; 4096]);
    assert_eq!(perform(&mut m, cmd(UBLK_IO_OP_DISCARD, 4096, 512), &mut buf), 0);
    assert_eq!(perform(&mut m, cmd(UBLK_IO_OP_WRITE_ZEROES, 5120, 512), &mut buf), 0);
    perform(&mut m, cmd(UBLK_IO_OP_READ, 4096, 4096), &mut buf);
    assert_eq!((buf[0], buf[512], buf[1024], buf[1536]), (0, 7, 0, 7));
    assert_eq!(perform(&mut m, cmd(17, 0, 0), &mut buf), -libc::EINVAL);
}

#[test]
fn hung_requests_wait_for_a_thaw() {
    let mut d = device(Policy { hang_pm: 1000, ..Policy::default() });
    let mut buf = vec![5u8; 4096];
    assert_eq!(d.request(3, cmd(UBLK_IO_OP_WRITE, 0, 4096), &mut buf), None);
    assert_eq!(d.request(8, cmd(UBLK_IO_OP_FLUSH, 0, 0), &mut buf), None);
    assert_eq!(d.model.stats.hangs, 2);
    assert!(matches!(d.handle_ctl("{\"cmd\":\"thaw\"}"), Reply::Thawed { parked: 2 }));
    assert_eq!(d.take_parked(), [3, 8]);
    assert!(d.take_parked().is_empty());
    assert_eq!(d.release(cmd(UBLK_IO_OP_WRITE, 0, 4096), &mut buf), 4096);
    assert_eq!(d.model.volatile_bytes(), 4096);

    assert!(matches!(
        d.handle_ctl("{\"cmd\":\"thaw\",\"result\":\"eio\"}"),
        Reply::Thawed { parked: 0 }
    ));
    assert_eq!(d.release(cmd(UBLK_IO_OP_WRITE, 0, 4096), &mut buf), -libc::EIO);
    assert_eq!(d.model.volatile_bytes(), 4096);
}

#[test]
fn a_policy_without_hangs_parks_nothing() {
    let mut d = device(Policy::default());
    let mut buf = vec![5u8; 4096];
    for tag in 0..64 {
        assert_eq!(d.request(tag, cmd(UBLK_IO_OP_WRITE, 0, 4096), &mut buf), Some(4096));
    }
    assert!(d.take_parked().is_empty());
}

#[test]
fn policies_change_at_runtime() {
    let mut d = device(Policy::default());
    match d.handle_ctl("{\"cmd\":\"set\",\"error_pm\":1000,\"hang_pm\":null}") {
        Reply::PolicySet { policy } => {
            assert_eq!(policy, Policy { error_pm: 1000, flush_lie_pm: 0, hang_pm: 0 })
        }
        other => panic!("{other:?}"),
    }
    let mut buf = vec![5u8; 4096];
    assert_eq!(
        d.request(0, cmd(UBLK_IO_OP_WRITE, 0, 4096), &mut buf),
        Some(-libc::EIO)
    );
    // what stands before the value that is too large is set
    let reply = d.handle_ctl("{\"cmd\":\"set\",\"error_pm\":7,\"flush_lie_pm\":1001,\"hang_pm\":8}");
    assert_eq!(reply.error().as_deref(), Some("flush_lie_pm > 1000"));
    assert_eq!(d.model.policy, Policy { error_pm: 7, flush_lie_pm: 0, hang_pm: 0 });
}

#[test]
fn status_and_crash() {
    let mut d = device(Policy::default());
    let mut buf = vec![5u8; 4096];
    d.request(0, cmd(UBLK_IO_OP_WRITE, 0, 4096), &mut buf);
    match d.handle_ctl("{\"cmd\":\"status\"}") {
        Reply::Status { policy, stats, volatile_bytes, parked } => {
            assert_eq!(policy, Policy::default());
            assert_eq!((stats.writes, volatile_bytes, parked), (1, 4096, 0));
        }
        other => panic!("{other:?}"),
    }
    match d.handle_ctl("{\"cmd\":\"crash\",\"mode\":\"drop\"}") {
        Reply::Crashed { report } => {
            assert_eq!((report.committed, report.dropped, report.torn), (0, 1, 0))
        }
        other => panic!("{other:?}"),
    }
    assert!(matches!(d.handle_ctl("{\"cmd\":\"crash\"}"), Reply::Crashed { .. }));
    assert!(d.handle_ctl("{\"cmd\":\"status\"}").error().is_none());
}

#[test]
fn bad_control_requests() {
    let mut d = device(Policy::default());
    let mut words = |line: &str| d.handle_ctl(line).error();
    assert_eq!(
        words("{").as_deref(),
        Some("bad request: EOF while parsing an object at line 1 column 1")
    );
    assert_eq!(
        words("{\"cmd\":\"crash\",\"mode\":\"soft\"}").as_deref(),
        Some("unknown mode 'soft'")
    );
    assert_eq!(
        words("{\"cmd\":\"thaw\",\"result\":\"maybe\"}").as_deref(),
        Some("unknown result 'maybe'")
    );
    let unknown = Some("unknown cmd (status/set/crash/thaw)");
    assert_eq!(words("{\"cmd\":\"jump\"}").as_deref(), unknown);
    assert_eq!(words("[1]").as_deref(), unknown);
    assert_eq!(words("{\"cmd\":1}").as_deref(), unknown);
}

#[test]
fn decisions_on_given_fields() {
    let mut d = device(Policy::default());
    let fields = CtlFields {
        cmd: Some("set".to_string()),
        error_pm: None,
        flush_lie_pm: Some(3),
        hang_pm: Some(1000),
        mode: None,
        result: None,
    };
    assert!(matches!(d.control(&fields), Reply::PolicySet { .. }));
    assert_eq!(d.model.policy, Policy { error_pm: 0, flush_lie_pm: 3, hang_pm: 1000 });
}
