use ublkera::era::EraState;
use ublkera::target::{
    backing_size, backing_supports_discard, handle_io_cmd, init_tgt, make_sqe, queue_name,
    sysfs_dir, Backing, BackingIo, EraTgt, IoPhase, IoTurn, NodeKind,
};
use ublkera::ublk::{
    bdev_path, decode_io, IoCmd, UBLK_IO_OP_DISCARD, UBLK_IO_OP_FLUSH, UBLK_IO_OP_READ,
    UBLK_IO_OP_WRITE, UBLK_IO_OP_WRITE_ZEROES,
};

fn cmd(op: u32, off: u64, len: u64) -> IoCmd {
    IoCmd { op, off, len }
}

#[test]
fn sizes_of_backings() {
    assert_eq!(backing_size(Backing::File { len: 12345 }), Ok((12345, 9, 12)));
    assert_eq!(
        backing_size(Backing::BlockDevice { cap: 1 << 30, ssz: 512, pbsz: 4096 }),
        Ok((1 << 30, 9, 12))
    );
    assert_eq!(
        backing_size(Backing::BlockDevice { cap: 1 << 30, ssz: 4096, pbsz: 65536 }),
        Ok((1 << 30, 12, 16))
    );
    assert_eq!(
        backing_size(Backing::Other),
        Err("backing target must be a regular file or block device".to_string())
    );
}

#[test]
fn where_the_system_describes_a_device() {
    assert_eq!(sysfs_dir(libc::makedev(8, 1)), "/sys/dev/block/8:1");
    assert_eq!(sysfs_dir(libc::makedev(259, 70000)), "/sys/dev/block/259:70000");
}

#[test]
fn discards_need_write_zeroes_on_a_block_device() {
    let text = |s: &str| Some(s.to_string());
    assert!(backing_supports_discard(NodeKind::File, None, None));
    assert!(!backing_supports_discard(NodeKind::Other, text("1"), None));
    assert!(!backing_supports_discard(NodeKind::Unknown, text("1"), None));
    assert!(backing_supports_discard(NodeKind::BlockDevice, text("2147450880\n"), None));
    assert!(!backing_supports_discard(NodeKind::BlockDevice, text("0\n"), text("9")));
    assert!(backing_supports_discard(NodeKind::BlockDevice, None, text("9\n")));
    assert!(!backing_supports_discard(NodeKind::BlockDevice, text("many"), None));
    assert!(!backing_supports_discard(NodeKind::BlockDevice, None, None));
}

#[test]
fn announces_what_the_backing_can_do() {
    let mut tgt = EraTgt { back_file_path: "/x".to_string(), direct_io: true, discard: true };
    let p = init_tgt(&tgt, (1 << 20) + 100, (12, 13), 512 * 1024);
    assert_eq!(p.types, 3);
    assert_eq!((p.basic.attrs, p.basic.logical_bs_shift, p.basic.physical_bs_shift), (4, 12, 13));
    assert_eq!((p.basic.io_opt_shift, p.basic.io_min_shift), (12, 9));
    assert_eq!((p.basic.max_sectors, p.basic.dev_sectors), (1024, 2048));
    assert_eq!((p.discard.discard_granularity, p.discard.max_discard_sectors), (4096, 1 << 22));
    assert_eq!((p.discard.max_discard_segments, p.discard.max_write_zeroes_sectors), (1, 0));
    tgt.discard = false;
    let p = init_tgt(&tgt, 1 << 20, (9, 12), 4096);
    assert_eq!((p.types, p.discard.discard_granularity, p.discard.max_discard_sectors), (1, 0, 0));
}

#[test]
fn requests_decode_from_sectors() {
    assert_eq!(decode_io(0x0301, 8, 16), cmd(1, 4096, 8192));
    assert_eq!(decode_io(0x2, 0, 0), cmd(2, 0, 0));
    assert_eq!(decode_io(3, 0, u32::MAX).len, u32::MAX as u64 * 512);
}

#[test]
fn passes_on_four_kinds_of_requests() {
    assert_eq!(make_sqe(cmd(UBLK_IO_OP_FLUSH, 0, 0)), Some(BackingIo::Fsync));
    assert_eq!(
        make_sqe(cmd(UBLK_IO_OP_READ, 512, 4096)),
        Some(BackingIo::Read { off: 512, len: 4096 })
    );
    assert_eq!(
        make_sqe(cmd(UBLK_IO_OP_WRITE, 512, 4096)),
        Some(BackingIo::Write { off: 512, len: 4096 })
    );
    assert_eq!(
        make_sqe(cmd(UBLK_IO_OP_DISCARD, 512, 1 << 40)),
        Some(BackingIo::PunchHole { off: 512, bytes: 1 << 40 })
    );
    assert_eq!(make_sqe(cmd(UBLK_IO_OP_WRITE_ZEROES, 0, 4096)), None);
}

#[test]
fn a_request_is_stamped_when_its_backing_io_is_over() {
    let mut era = EraState::new(1 << 20, 65536, 7).unwrap();
    let write = cmd(UBLK_IO_OP_WRITE, 65536, 4096);
    let submit = IoTurn::Submit { io: BackingIo::Write { off: 65536, len: 4096 } };
    assert_eq!(handle_io_cmd(&mut era, write, IoPhase::Driver), submit);
    assert_eq!(handle_io_cmd(&mut era, write, IoPhase::Backend { res: -libc::EAGAIN }), submit);
    assert_eq!(era.written_chunks(), 0);
    assert_eq!(
        handle_io_cmd(&mut era, write, IoPhase::Backend { res: 4096 }),
        IoTurn::Complete { res: 4096 }
    );
    assert_eq!(era.written_chunks(), 1);

    // failed and short ones are stamped too
    let discard = cmd(UBLK_IO_OP_DISCARD, 0, 65536);
    assert_eq!(
        handle_io_cmd(&mut era, discard, IoPhase::Backend { res: -libc::EIO }),
        IoTurn::Complete { res: -libc::EIO }
    );
    assert_eq!(era.written_chunks(), 2);

    // reads and flushes never are
    for op in [UBLK_IO_OP_READ, UBLK_IO_OP_FLUSH] {
        let other = cmd(op, 0, 1 << 20);
        assert_eq!(
            handle_io_cmd(&mut era, other, IoPhase::Backend { res: 0 }),
            IoTurn::Complete { res: 0 }
        );
    }
    assert_eq!(era.written_chunks(), 2);
}

#[test]
fn other_requests_are_rejected() {
    let mut era = EraState::new(1 << 20, 65536, 7).unwrap();
    let zeroes = cmd(UBLK_IO_OP_WRITE_ZEROES, 0, 4096);
    assert_eq!(
        handle_io_cmd(&mut era, zeroes, IoPhase::Driver),
        IoTurn::Complete { res: -libc::EINVAL }
    );
    assert_eq!(era.written_chunks(), 0);
}

#[test]
fn names_of_nodes_and_threads() {
    assert_eq!(bdev_path(12), "/dev/ublkb12");
    assert_eq!(queue_name(0, 1), "ublkb0-q1");
}
