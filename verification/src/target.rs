//! The tracked device: a loop-like pass-through to a backing file or block
//! device, stamping the era map on every completed write.

use vstd::arithmetic::power2::pow2;
use vstd::prelude::*;

use crate::era::{EraMap, EraState};
use crate::number::{number, parse_number};
use crate::sys::{
    eagain, eagain_code, einval, einval_code, log2, major, major_of, minor, minor_of,
};
use crate::text::{decimal, push_decimal, trim, trimmed};
use crate::ublk::{
    sectors_of, BasicParams, DiscardParams, IoCmd, Params, MAX_DISCARD_SECTORS,
    UBLK_ATTR_VOLATILE_CACHE, UBLK_IO_OP_DISCARD, UBLK_IO_OP_FLUSH, UBLK_IO_OP_READ,
    UBLK_IO_OP_WRITE, UBLK_PARAM_TYPE_BASIC, UBLK_PARAM_TYPE_DISCARD,
};

verus! {

/// How a device passes through to its backing store.
pub struct EraTgt {
    pub back_file_path: String,
    pub direct_io: bool,
    /// advertise DISCARD upward; see `backing_supports_discard`
    pub discard: bool,
}

/// What a backing path leads to, with what the system says of it.
#[derive(Clone, Copy, Debug, PartialEq, Eq, Structural)]
pub enum Backing {
    /// capacity in bytes, logical and physical block size
    BlockDevice { cap: u64, ssz: i32, pbsz: u32 },
    File { len: u64 },
    Other,
}

/// The words for a backing target that is neither file nor block device.
pub open spec fn bad_backing() -> Seq<char> {
    "backing target must be a regular file or block device"@
}

/// (size_bytes, logical_bs_shift, physical_bs_shift) of a file or block device.
pub fn backing_size(backing: Backing) -> (res: Result<(u64, u8, u8), String>)
    requires
        backing matches Backing::BlockDevice { ssz, pbsz, .. } ==> ssz > 0 && pbsz > 0,
    ensures
        match backing {
            Backing::BlockDevice { cap, ssz, pbsz } => res matches Ok((size, lbs, pbs)) && {
                &&& size == cap
                &&& pow2(lbs as nat) <= ssz < pow2(lbs as nat + 1)
                &&& pow2(pbs as nat) <= pbsz < pow2(pbs as nat + 1)
            },
            Backing::File { len } => res matches Ok((size, lbs, pbs)) && size == len && lbs == 9
                && pbs == 12,
            Backing::Other => res matches Err(t) && t@ == bad_backing(),
        },
{
    match backing {
        Backing::BlockDevice { cap, ssz, pbsz } => {
            let lbs: usize = log2(ssz as u32);
            let pbs: usize = log2(pbsz);
            Ok((cap, lbs as u8, pbs as u8))
        },
        Backing::File { len } => Ok((len, 9, 12)),
        Backing::Other => Err("backing target must be a regular file or block device".to_owned()),
    }
}

/// What kind of node a backing path leads to.
#[derive(Clone, Copy, Debug, PartialEq, Eq, Structural)]
pub enum NodeKind {
    /// the system would not say
    Unknown,
    File,
    BlockDevice,
    Other,
}

/// Where the system describes the block device with number `rdev`.
pub fn sysfs_dir(rdev: u64) -> (path: String)
    ensures
        path@ == "/sys/dev/block/"@ + decimal(major_of(rdev) as nat) + ":"@ + decimal(
            minor_of(rdev) as nat,
        ),
{
    let mut path: String = "/sys/dev/block/".to_owned();
    push_decimal(&mut path, major(rdev) as u64);
    path.append(":");
    push_decimal(&mut path, minor(rdev) as u64);
    path
}

/// A limit that a `queue/` file states is a positive number.
pub open spec fn is_positive(text: Seq<char>) -> bool {
    number(trimmed(text)) matches Ok(v) && v > 0
}

/// Whether the backing store can execute a DISCARD, which is passed on as a
/// hole punch. On a regular file that deallocates the extent: always
/// available. On a block device the kernel implements it as WRITE_ZEROES with
/// no fallback, so it only works when the device advertises write-zeroes.
/// `own` and `parent` hold `write_zeroes_max_bytes` of the device and of the
/// disk that it is a partition of, where they could be read; whole disks have
/// their own, partitions sit one level below theirs.
pub fn backing_supports_discard(
    kind: NodeKind,
    own: Option<String>,
    parent: Option<String>,
) -> (yes: bool)
    ensures
        yes == match kind {
            NodeKind::File => true,
            NodeKind::BlockDevice => match (own, parent) {
                (Some(text), _) => is_positive(text@),
                (None, Some(text)) => is_positive(text@),
                (None, None) => false,
            },
            _ => false,
        },
{
    match kind {
        NodeKind::File => true,
        NodeKind::BlockDevice => match (own, parent) {
            (Some(text), _) => positive(&text),
            (None, Some(text)) => positive(&text),
            (None, None) => false,
        },
        _ => false,
    }
}

fn positive(text: &str) -> (yes: bool)
    ensures
        yes == is_positive(text@),
{
    match parse_number(trim(text)) {
        Ok(v) => v > 0,
        Err(_) => false,
    }
}

/// What a tracked device announces: a volatile cache, so that the kernel
/// delivers FLUSH, and DISCARD when the backing can execute it. WRITE_ZEROES
/// is left unadvertised.
pub open spec fn announced(
    discard: bool,
    dev_size: u64,
    bs_shifts: (u8, u8),
    max_io_buf_bytes: u32,
) -> Params {
    Params {
        types: if discard {
            3
        } else {
            1
        },
        basic: BasicParams {
            attrs: UBLK_ATTR_VOLATILE_CACHE,
            logical_bs_shift: bs_shifts.0,
            physical_bs_shift: bs_shifts.1,
            io_opt_shift: 12,
            io_min_shift: 9,
            max_sectors: max_io_buf_bytes / 512,
            dev_sectors: dev_size / 512,
        },
        discard: if discard {
            DiscardParams {
                discard_granularity: (1u32 << bs_shifts.0),
                max_discard_sectors: MAX_DISCARD_SECTORS,
                max_write_zeroes_sectors: 0,
                max_discard_segments: 1,
            }
        } else {
            DiscardParams {
                discard_granularity: 0,
                max_discard_sectors: 0,
                max_write_zeroes_sectors: 0,
                max_discard_segments: 0,
            }
        },
    }
}

/// The parameters of a tracked device.
pub fn init_tgt(
    tgt: &EraTgt,
    dev_size: u64,
    bs_shifts: (u8, u8),
    max_io_buf_bytes: u32,
) -> (params: Params)
    requires
        tgt.discard ==> bs_shifts.0 < 32,
    ensures
        params == announced(tgt.discard, dev_size, bs_shifts, max_io_buf_bytes),
{
    let mut types: u32 = UBLK_PARAM_TYPE_BASIC;
    if tgt.discard {
        proof {
            assert(1u32 | 2u32 == 3u32) by (bit_vector);
        }
        types = types | UBLK_PARAM_TYPE_DISCARD;
    }
    let basic = BasicParams {
        attrs: UBLK_ATTR_VOLATILE_CACHE,
        logical_bs_shift: bs_shifts.0,
        physical_bs_shift: bs_shifts.1,
        io_opt_shift: 12,
        io_min_shift: 9,
        max_sectors: sectors_of(max_io_buf_bytes as u64) as u32,
        dev_sectors: sectors_of(dev_size),
    };
    let discard = if tgt.discard {
        DiscardParams {
            discard_granularity: 1u32 << bs_shifts.0,
            max_discard_sectors: MAX_DISCARD_SECTORS,
            max_write_zeroes_sectors: 0,
            max_discard_segments: 1,
        }
    } else {
        DiscardParams {
            discard_granularity: 0,
            max_discard_sectors: 0,
            max_write_zeroes_sectors: 0,
            max_discard_segments: 0,
        }
    };
    Params { types, basic, discard }
}

/// An IO on the backing store.
#[derive(Clone, Copy, Debug, PartialEq, Eq, Structural)]
pub enum BackingIo {
    Fsync,
    Read { off: u64, len: u32 },
    Write { off: u64, len: u32 },
    /// extent deallocation on a regular file, WRITE_ZEROES on a block device
    PunchHole { off: u64, bytes: u64 },
}

/// The backing-store IO for a request, or `None` for one that is not
/// supported (WRITE_ZEROES, zoned ops, ...). This is the single source of
/// truth for which requests pass through. READ and WRITE lengths are bounded
/// by the IO buffer, so they fit; DISCARD ranges can exceed it.
pub open spec fn passed_on(cmd: IoCmd) -> Option<BackingIo> {
    if cmd.op == UBLK_IO_OP_FLUSH {
        Some(BackingIo::Fsync)
    } else if cmd.op == UBLK_IO_OP_READ {
        Some(BackingIo::Read { off: cmd.off, len: cmd.len as u32 })
    } else if cmd.op == UBLK_IO_OP_WRITE {
        Some(BackingIo::Write { off: cmd.off, len: cmd.len as u32 })
    } else if cmd.op == UBLK_IO_OP_DISCARD {
        Some(BackingIo::PunchHole { off: cmd.off, bytes: cmd.len })
    } else {
        None
    }
}

/// The backing-store IO for a request.
pub fn make_sqe(cmd: IoCmd) -> (io: Option<BackingIo>)
    ensures
        io == passed_on(cmd),
{
    if cmd.op == UBLK_IO_OP_FLUSH {
        Some(BackingIo::Fsync)
    } else if cmd.op == UBLK_IO_OP_READ {
        Some(BackingIo::Read { off: cmd.off, len: cmd.len as u32 })
    } else if cmd.op == UBLK_IO_OP_WRITE {
        Some(BackingIo::Write { off: cmd.off, len: cmd.len as u32 })
    } else if cmd.op == UBLK_IO_OP_DISCARD {
        Some(BackingIo::PunchHole { off: cmd.off, bytes: cmd.len })
    } else {
        None
    }
}

/// Which completion drives a request.
#[derive(Clone, Copy, Debug, PartialEq, Eq, Structural)]
pub enum IoPhase {
    /// a fresh request arrived from the driver
    Driver,
    /// the backing IO that was submitted for it finished with this result
    Backend { res: i32 },
}

/// What to do about a request.
#[derive(Clone, Copy, Debug, PartialEq, Eq, Structural)]
pub enum IoTurn {
    /// submit this backing IO
    Submit { io: BackingIo },
    /// report this result to the driver, and fetch the next request
    Complete { res: i32 },
}

/// The backing IO is over.
pub open spec fn is_over(phase: IoPhase) -> bool {
    phase matches IoPhase::Backend { res } && res != -eagain_code()
}

/// The request changes data.
pub open spec fn changes_data(cmd: IoCmd) -> bool {
    cmd.op == UBLK_IO_OP_WRITE || cmd.op == UBLK_IO_OP_DISCARD
}

/// A range that is to be stamped ends within 64 bits, or lies beyond the
/// device end.
pub open spec fn can_turn(map: EraMap, cmd: IoCmd, phase: IoPhase) -> bool {
    is_over(phase) && changes_data(cmd) ==> {
        ||| cmd.len == 0
        ||| map.chunk_of(cmd.off as int) >= map.eras.len()
        ||| cmd.off + cmd.len <= u64::MAX
    }
}

/// The map after a turn.
pub open spec fn turned_map(map: EraMap, cmd: IoCmd, phase: IoPhase) -> EraMap {
    if is_over(phase) && changes_data(cmd) {
        map.marked(cmd.off, cmd.len)
    } else {
        map
    }
}

/// The outcome of a turn.
pub open spec fn turn_of(cmd: IoCmd, phase: IoPhase) -> IoTurn {
    if is_over(phase) {
        IoTurn::Complete { res: phase->res }
    } else {
        match passed_on(cmd) {
            Some(io) => IoTurn::Submit { io },
            None => IoTurn::Complete { res: (-einval_code()) as i32 },
        }
    }
}

/// One turn of the per-tag state machine, driven by a single completion.
///
/// A fresh request is validated, and the matching backing IO submitted. When
/// that has finished, the era map is stamped for every data-changing request,
/// including failed or short ones: an errored WRITE or DISCARD may still have
/// reached the medium partially, and the map must never claim less than what
/// may have changed. Over-reporting a failed request that changed nothing only
/// costs the consumer an extra copy. A backing IO that is to be tried again is
/// submitted again.
pub fn handle_io_cmd(era: &mut EraState, cmd: IoCmd, phase: IoPhase) -> (turn: IoTurn)
    requires
        old(era).wf(),
        can_turn(old(era)@, cmd, phase),
    ensures
        final(era).wf(),
        final(era)@ == turned_map(old(era)@, cmd, phase),
        turn == turn_of(cmd, phase),
{
    if let IoPhase::Backend { res } = phase {
        if res != -eagain() {
            if cmd.op == UBLK_IO_OP_WRITE || cmd.op == UBLK_IO_OP_DISCARD {
                era.mark_write(cmd.off, cmd.len);
            }
            return IoTurn::Complete { res };
        }
    }
    match make_sqe(cmd) {
        Some(io) => IoTurn::Submit { io },
        None => IoTurn::Complete { res: -einval() },
    }
}

/// A request that changed data is never completed unstamped, whatever its
/// result: a consumer in step before stays in step.
pub proof fn completion_keeps_step(
    device: Seq<u8>,
    landed: Seq<u8>,
    shadow: Seq<u8>,
    map: EraMap,
    cursor: u32,
    cmd: IoCmd,
    res: i32,
)
    requires
        map.wf(),
        crate::cbt::in_step(device, shadow, map, cursor),
        cursor < map.current_era,
        landed.len() == device.len(),
        forall|i: int|
            0 <= i < device.len() && !(changes_data(cmd) && cmd.off <= i < cmd.off + cmd.len)
                ==> landed[i] == device[i],
        is_over(IoPhase::Backend { res }),
    ensures
        turn_of(cmd, IoPhase::Backend { res }) == (IoTurn::Complete { res }),
        crate::cbt::in_step(
            landed,
            shadow,
            turned_map(map, cmd, IoPhase::Backend { res }),
            cursor,
        ),
{
    if changes_data(cmd) {
        crate::cbt::stamped_write_keeps_step(
            device,
            landed,
            shadow,
            map,
            cursor,
            cmd.off,
            cmd.len,
        );
    } else {
        assert(landed =~= device);
    }
}

/// A backing IO that is to be tried again is submitted again as it was, and
/// stamps nothing.
pub proof fn retry_repeats_the_request(map: EraMap, cmd: IoCmd)
    ensures
        turn_of(cmd, IoPhase::Backend { res: (-eagain_code()) as i32 }) == turn_of(
            cmd,
            IoPhase::Driver,
        ),
        turned_map(map, cmd, IoPhase::Backend { res: (-eagain_code()) as i32 }) == map,
{
}

/// The name of a queue's thread: the device node and the queue.
pub fn queue_name(dev_id: u32, qid: u16) -> (name: String)
    ensures
        name@ == "ublkb"@ + decimal(dev_id as nat) + "-q"@ + decimal(qid as nat),
{
    let mut name: String = "ublkb".to_owned();
    push_decimal(&mut name, dev_id as u64);
    name.append("-q");
    push_decimal(&mut name, qid as u64);
    name
}

/// Every request whose range ends within 64 bits can be turned, whatever it is
/// and however its IO ended.
pub proof fn requests_can_be_turned(map: EraMap, cmd: IoCmd, phase: IoPhase)
    requires
        cmd.off + cmd.len <= u64::MAX,
    ensures
        can_turn(map, cmd, phase),
{
}

} // verus!
