//! What the fault-injecting device promises: it is a disk with a volatile
//! cache, and it misbehaves only as its policy and the control requests say.

use vstd::arithmetic::power2::{is_pow2, pow2};
use vstd::prelude::*;

use crate::cbt::overwritten;
use crate::durability::{
    discard_reads_zero, drop_crash_reverts_to_committed, errored_write_leaves_block_prefix,
    flushes_follow_the_draws, read_your_writes, unflushed_discards_wait_in_the_cache,
    unflushed_writes_can_be_lost,
};
use crate::fault::{
    announced, answers, controlled, reply_complaint, request_of, served_buf, served_disk,
    served_result, valid_geometry, CtlRequestView, FaultState, Reply,
};
use crate::json::{json_str, json_u64};
use crate::model::{entry_bytes, CrashMode, Disk, Policy};
use crate::rng::{advance, draw};
use crate::ublk::IoCmd;

verus! {

/// A flush that is served honestly makes everything that a read can see
/// durable: the cache is empty, and the device reads the same after every
/// crash.
pub proof fn a_served_flush_is_durable(disk: Disk, cmd: IoCmd, buf: Seq<u8>, mode: CrashMode)
    requires
        cmd.op == 2,
        disk.policy.flush_lie_pm == 0,
        disk.stats.flushes < u64::MAX,
    ensures
        served_result(disk, cmd) == 0,
        served_buf(disk, cmd, buf) == buf,
        served_disk(disk, cmd, buf).committed == disk.visible(),
        served_disk(disk, cmd, buf).volatile.len() == 0,
        served_disk(disk, cmd, buf).visible() == disk.visible(),
        served_disk(disk, cmd, buf).crashed(mode).visible() == disk.visible(),
        served_disk(disk, cmd, buf).stats.flushes == disk.stats.flushes + 1,
        served_disk(disk, cmd, buf).rng == disk.rng,
{
    flushes_follow_the_draws(disk);
}

/// The same on the path that requests take: one that arrives and does not
/// hang, and one that was parked and is performed by a thaw.
pub proof fn a_flush_request_is_durable(
    device: FaultState,
    tag: u16,
    cmd: IoCmd,
    buf: Seq<u8>,
    mode: CrashMode,
)
    requires
        cmd.op == 2,
        device.disk.policy.flush_lie_pm == 0,
        device.disk.stats.flushes < u64::MAX,
    ensures
        !device.hangs() ==> {
            let after = device.after_request(tag, cmd, buf).disk;
            &&& after.committed == device.disk.visible()
            &&& after.volatile.len() == 0
            &&& after.crashed(mode).visible() == device.disk.visible()
            &&& after.stats.flushes == device.disk.stats.flushes + 1
        },
        device.thaw == 0 ==> {
            let after = device.after_release(cmd, buf).disk;
            &&& after.committed == device.disk.visible()
            &&& after.volatile.len() == 0
            &&& after.crashed(mode).visible() == device.disk.visible()
            &&& after.stats.flushes == device.disk.stats.flushes + 1
        },
{
    a_served_flush_is_durable(device.rolled(), cmd, buf, mode);
    a_served_flush_is_durable(device.disk, cmd, buf, mode);
}

/// With a lying policy a flush is acknowledged all the same, and commits
/// nothing exactly when its draw falls below the probability.
pub proof fn a_lying_flush_is_acknowledged(disk: Disk, cmd: IoCmd, buf: Seq<u8>)
    requires
        cmd.op == 2,
        disk.policy.flush_lie_pm > 0,
    ensures
        served_result(disk, cmd) == 0,
        ({
            let after = served_disk(disk, cmd, buf);
            &&& after.visible() == disk.visible()
            &&& after.rng == advance(disk.rng)
            &&& if draw(disk.rng, 0) % 1000 < disk.policy.flush_lie_pm {
                after.committed == disk.committed && after.volatile == disk.volatile
            } else {
                after.committed == disk.visible() && after.volatile.len() == 0
            }
        }),
{
    flushes_follow_the_draws(disk);
}

/// A write that is served without an error is seen by every read, at its place
/// and nowhere else, and its length is the result. One that fails is answered
/// with EIO, and what it changed is the start of its range.
pub proof fn a_served_write_is_seen(disk: Disk, cmd: IoCmd, buf: Seq<u8>, p: int)
    requires
        disk.wf(),
        cmd.op == 1,
        cmd.off + cmd.len <= disk.committed.len(),
        cmd.len <= buf.len(),
        cmd.len <= i32::MAX,
        0 <= p < disk.committed.len(),
    ensures
        served_buf(disk, cmd, buf) == buf,
        ({
            let after = served_disk(disk, cmd, buf).visible();
            let inside = cmd.off <= p < cmd.off + cmd.len;
            let fails = disk.policy.error_pm > 0 && draw(disk.rng, 0) % 1000
                < disk.policy.error_pm;
            &&& after.len() == disk.committed.len()
            &&& !inside ==> after[p] == disk.visible()[p]
            &&& inside ==> after[p] == buf[p - cmd.off] || fails && after[p] == disk.visible()[p]
            &&& fails <==> served_result(disk, cmd) == -5
            &&& !fails <==> served_result(disk, cmd) == cmd.len
        }),
{
    reveal_with_fuel(crate::rng::advance_by, 2);
    crate::model::lemma_layered_len(disk.committed, disk.volatile);
    let data = buf.take(cmd.len as int);
    if disk.write_errors() {
        errored_write_leaves_block_prefix(disk, cmd.off, data);
    } else {
        read_your_writes(disk, cmd.off, data);
    }
}

/// A read brings what the device holds at its place, in the order of the
/// device, leaves the rest of the buffer alone, and changes nothing on the
/// disk but its count.
pub proof fn a_served_read_brings_the_content(disk: Disk, cmd: IoCmd, buf: Seq<u8>)
    requires
        cmd.op == 0,
        cmd.off + cmd.len <= disk.committed.len(),
        cmd.len <= buf.len(),
        cmd.len <= i32::MAX,
        disk.stats.reads < u64::MAX,
    ensures
        served_result(disk, cmd) == cmd.len,
        served_buf(disk, cmd, buf).len() == buf.len(),
        forall|k: int|
            0 <= k < cmd.len ==> #[trigger] served_buf(disk, cmd, buf)[k] == disk.visible()[cmd.off
                + k],
        forall|k: int|
            cmd.len <= k < buf.len() ==> #[trigger] served_buf(disk, cmd, buf)[k] == buf[k],
        served_disk(disk, cmd, buf).committed == disk.committed,
        served_disk(disk, cmd, buf).volatile == disk.volatile,
        served_disk(disk, cmd, buf).rng == disk.rng,
        served_disk(disk, cmd, buf).stats.reads == disk.stats.reads + 1,
{
    crate::model::lemma_layered_len(disk.committed, disk.volatile);
}

/// Discards and write-zeroes, of any length, leave zeros in their range and
/// everything else as it was.
pub proof fn a_served_discard_leaves_zeros(disk: Disk, cmd: IoCmd, buf: Seq<u8>, p: int)
    requires
        cmd.op == 3 || cmd.op == 5,
        0 <= p < disk.committed.len(),
    ensures
        served_result(disk, cmd) == 0,
        served_buf(disk, cmd, buf) == buf,
        served_disk(disk, cmd, buf).visible()[p] == if cmd.off <= p && p - cmd.off < cmd.len {
            0
        } else {
            disk.visible()[p]
        },
{
    crate::model::lemma_layered_len(disk.committed, disk.volatile);
    discard_reads_zero(disk, cmd.off, cmd.len);
}

/// Whatever else is asked for is refused with EINVAL and changes nothing.
pub proof fn unknown_requests_are_refused(disk: Disk, cmd: IoCmd, buf: Seq<u8>)
    requires
        cmd.op == 4 || cmd.op > 5,
    ensures
        served_result(disk, cmd) == -22,
        served_disk(disk, cmd, buf) == disk,
        served_buf(disk, cmd, buf) == buf,
{
}

/// A device without faults gives back what was written last.
pub proof fn what_is_written_is_read_back(
    disk: Disk,
    write: IoCmd,
    read: IoCmd,
    data: Seq<u8>,
    buf: Seq<u8>,
)
    requires
        disk.policy.error_pm == 0,
        write.op == 1,
        read.op == 0,
        read.off == write.off,
        read.len == write.len,
        data.len() == write.len,
        buf.len() == read.len,
        write.off + write.len <= disk.committed.len(),
    ensures
        served_buf(served_disk(disk, write, data), read, buf) == data,
{
    crate::model::lemma_layered_len(disk.committed, disk.volatile);
    assert(data.take(write.len as int) =~= data);
    read_your_writes(disk, write.off, data);
    let after = served_disk(disk, write, data);
    assert(after.visible() == overwritten(disk.visible(), write.off as int, data));
    assert(served_buf(after, read, buf) =~= data);
}

/// A request hangs exactly when the draw for it falls below the probability.
/// One that hangs is parked behind the others and changes nothing but the
/// counts; one that does not is served like any other.
pub proof fn hangs_follow_the_draws(device: FaultState, tag: u16, cmd: IoCmd, buf: Seq<u8>)
    requires
        device.disk.stats.hangs < u64::MAX,
    ensures
        ({
            let pm = device.disk.policy.hang_pm;
            let hangs = pm > 0 && draw(device.disk.rng, 0) % 1000 < pm;
            let after = device.after_request(tag, cmd, buf);
            &&& device.hangs() <==> hangs
            &&& after.thaw == device.thaw
            &&& hangs ==> {
                &&& after.parked == device.parked.push(tag)
                &&& after.disk.committed == device.disk.committed
                &&& after.disk.volatile == device.disk.volatile
                &&& after.disk.policy == device.disk.policy
                &&& after.disk.rng == advance(device.disk.rng)
                &&& after.disk.stats.hangs == device.disk.stats.hangs + 1
                &&& after.disk.stats.writes == device.disk.stats.writes
            }
            &&& !hangs ==> {
                &&& after.parked == device.parked
                &&& after.disk == served_disk(device.rolled(), cmd, buf)
            }
            &&& device.rolled().committed == device.disk.committed
            &&& device.rolled().volatile == device.disk.volatile
            &&& device.rolled().policy == device.disk.policy
            &&& device.rolled().stats == device.disk.stats
            &&& device.rolled().rng == if pm > 0 {
                advance(device.disk.rng)
            } else {
                device.disk.rng
            }
        }),
{
    reveal_with_fuel(crate::rng::advance_by, 2);
}

/// A parked request that a thaw performs does what it would have done without
/// hanging; one that a thaw fails does nothing.
pub proof fn released_requests_are_performed_or_failed(
    device: FaultState,
    cmd: IoCmd,
    buf: Seq<u8>,
)
    ensures
        device.thaw == 0 ==> device.after_release(cmd, buf).disk == served_disk(
            device.disk,
            cmd,
            buf,
        ),
        device.thaw != 0 ==> device.after_release(cmd, buf) == device,
        device.after_release(cmd, buf).parked == device.parked,
        device.after_release(cmd, buf).thaw == device.thaw,
{
}

proof fn lemma_commands_differ()
    ensures
        "status"@ != "set"@,
        "status"@ != "crash"@,
        "status"@ != "thaw"@,
        "set"@ != "crash"@,
        "set"@ != "thaw"@,
        "crash"@ != "thaw"@,
        "drop"@ != "seeded"@,
        "ok"@ != "eio"@,
        "error_pm"@ != "flush_lie_pm"@,
        "error_pm"@ != "hang_pm"@,
        "flush_lie_pm"@ != "hang_pm"@,
{
    reveal_strlit("status");
    reveal_strlit("set");
    reveal_strlit("crash");
    reveal_strlit("thaw");
    reveal_strlit("drop");
    reveal_strlit("seeded");
    reveal_strlit("ok");
    reveal_strlit("eio");
    reveal_strlit("error_pm");
    reveal_strlit("flush_lie_pm");
    reveal_strlit("hang_pm");
    assert("status"@.len() == 6 && "set"@.len() == 3 && "crash"@.len() == 5 && "thaw"@.len() == 4);
    assert("drop"@.len() == 4 && "seeded"@.len() == 6 && "ok"@.len() == 2 && "eio"@.len() == 3);
    assert("error_pm"@.len() == 8 && "flush_lie_pm"@.len() == 12 && "hang_pm"@.len() == 7);
}

/// A `set` whose probabilities are all per mill takes each of them over, leaves
/// those that it does not name as they were, and answers with the policy.
pub proof fn a_policy_is_set_as_asked(device: FaultState, f: CtlRequestView, reply: Reply)
    requires
        f.cmd == Some("set"@),
        f.error_pm matches Some(v) ==> v <= 1000,
        f.flush_lie_pm matches Some(v) ==> v <= 1000,
        f.hang_pm matches Some(v) ==> v <= 1000,
        answers(device, f, reply),
    ensures
        ({
            let after = controlled(device, f);
            let old = device.disk.policy;
            let new = after.disk.policy;
            &&& after == (FaultState { disk: Disk { policy: new, ..device.disk }, ..device })
            &&& new.error_pm == if f.error_pm is Some {
                f.error_pm->0 as u32
            } else {
                old.error_pm
            }
            &&& new.flush_lie_pm == if f.flush_lie_pm is Some {
                f.flush_lie_pm->0 as u32
            } else {
                old.flush_lie_pm
            }
            &&& new.hang_pm == if f.hang_pm is Some {
                f.hang_pm->0 as u32
            } else {
                old.hang_pm
            }
            &&& reply matches Reply::PolicySet { policy } && policy == new
        }),
{
    lemma_commands_differ();
}

/// A `set` with a probability over 1000 is refused, and names the first such.
/// No probability over 1000 ever takes effect.
pub proof fn a_policy_stays_per_mill(device: FaultState, f: CtlRequestView, reply: Reply)
    requires
        f.cmd == Some("set"@),
        answers(device, f, reply),
        device.disk.policy.error_pm <= 1000,
        device.disk.policy.flush_lie_pm <= 1000,
        device.disk.policy.hang_pm <= 1000,
    ensures
        controlled(device, f).disk.policy.error_pm <= 1000,
        controlled(device, f).disk.policy.flush_lie_pm <= 1000,
        controlled(device, f).disk.policy.hang_pm <= 1000,
        ({
            let e = f.error_pm matches Some(v) && v > 1000;
            let l = f.flush_lie_pm matches Some(v) && v > 1000;
            let h = f.hang_pm matches Some(v) && v > 1000;
            &&& reply is TooLarge <==> e || l || h
            &&& reply matches Reply::TooLarge { key } ==> {
                &&& key@ == "error_pm"@ <==> e
                &&& key@ == "flush_lie_pm"@ <==> !e && l
                &&& key@ == "hang_pm"@ <==> !e && !l && h
            }
        }),
{
    lemma_commands_differ();
}

/// A `crash` is a power loss of the kind that it names, seeded if it names
/// none, and answers with what was lost; one of an unknown kind does nothing.
pub proof fn a_crash_is_of_the_kind_asked_for(device: FaultState, f: CtlRequestView, reply: Reply)
    requires
        f.cmd == Some("crash"@),
        answers(device, f, reply),
    ensures
        f.mode == Some("drop"@) ==> {
            &&& controlled(device, f).disk == device.disk.crashed(CrashMode::Drop)
            &&& reply matches Reply::Crashed { report } && report == device.disk.loss(
                CrashMode::Drop,
            ).report
        },
        f.mode is None || f.mode == Some("seeded"@) ==> {
            &&& controlled(device, f).disk == device.disk.crashed(CrashMode::Seeded)
            &&& reply matches Reply::Crashed { report } && report == device.disk.loss(
                CrashMode::Seeded,
            ).report
        },
        f.mode is Some && f.mode != Some("drop"@) && f.mode != Some("seeded"@) ==> {
            &&& controlled(device, f) == device
            &&& reply matches Reply::UnknownMode { mode } && mode@ == f.mode->0
        },
        controlled(device, f).parked == device.parked,
        controlled(device, f).thaw == device.thaw,
{
    lemma_commands_differ();
}

/// A `thaw` has the parked requests performed, or failed with EIO, as it says,
/// and touches nothing else.
pub proof fn a_thaw_says_what_becomes_of_the_parked(
    device: FaultState,
    f: CtlRequestView,
    reply: Reply,
)
    requires
        f.cmd == Some("thaw"@),
        answers(device, f, reply),
    ensures
        controlled(device, f).disk == device.disk,
        controlled(device, f).parked == device.parked,
        f.result is None || f.result == Some("ok"@) ==> controlled(device, f).thaw == 0,
        f.result == Some("eio"@) ==> controlled(device, f).thaw == -5,
        f.result is None || f.result == Some("ok"@) || f.result == Some("eio"@) ==> (reply matches Reply::Thawed {
            parked,
        } && parked == device.parked.len()),
        f.result is Some && f.result != Some("ok"@) && f.result != Some("eio"@) ==> {
            &&& controlled(device, f).thaw == device.thaw
            &&& reply matches Reply::UnknownResult { result } && result@ == f.result->0
        },
{
    lemma_commands_differ();
}

/// A `status` tells what there is, and neither it nor an unknown command
/// changes anything.
pub proof fn asking_changes_nothing(device: FaultState, f: CtlRequestView, reply: Reply)
    requires
        f.cmd != Some("set"@),
        f.cmd != Some("crash"@),
        f.cmd != Some("thaw"@),
        answers(device, f, reply),
    ensures
        controlled(device, f) == device,
        f.cmd == Some("status"@) ==> (reply matches Reply::Status {
            policy,
            stats,
            volatile_bytes,
            parked,
        } && {
            &&& policy == device.disk.policy
            &&& stats == device.disk.stats
            &&& volatile_bytes == entry_bytes(device.disk.volatile)
            &&& parked == device.parked.len()
        }),
        f.cmd != Some("status"@) ==> reply is UnknownCmd,
{
}

/// A request is read by the keys of its fields.
pub proof fn requests_are_read_by_key(text: Seq<char>)
    ensures
        request_of(text).cmd == json_str(text, "cmd"@),
        request_of(text).mode == json_str(text, "mode"@),
        request_of(text).result == json_str(text, "result"@),
        request_of(text).error_pm == json_u64(text, "error_pm"@),
        request_of(text).flush_lie_pm == json_u64(text, "flush_lie_pm"@),
        request_of(text).hang_pm == json_u64(text, "hang_pm"@),
{
}

/// An answer is an error exactly when the request was refused, and the words
/// quote what was wrong with it.
pub proof fn refusals_are_errors(reply: Reply)
    ensures
        reply_complaint(reply) is None <==> reply is Status || reply is PolicySet
            || reply is Crashed || reply is Thawed,
        reply matches Reply::TooLarge { key } ==> reply_complaint(reply) == Some(
            key@ + " > 1000"@,
        ),
        reply matches Reply::BadRequest { why } ==> reply_complaint(reply) == Some(
            "bad request: "@ + why@,
        ),
        reply matches Reply::UnknownMode { mode } ==> reply_complaint(reply) == Some(
            "unknown mode '"@ + mode@ + "'"@,
        ),
        reply matches Reply::UnknownResult { result } ==> reply_complaint(reply) == Some(
            "unknown result '"@ + result@ + "'"@,
        ),
        reply is UnknownCmd ==> reply_complaint(reply) == Some(
            "unknown cmd (status/set/crash/thaw)"@,
        ),
{
}

/// A device can be made of any whole number of blocks, if a block is a power
/// of two of at least 512 bytes, and of nothing else.
pub proof fn devices_are_made_of_blocks(size: u64, k: nat, n: nat)
    requires
        9 <= k < 32,
    ensures
        0 < n && n * pow2(k) == size ==> valid_geometry(size, pow2(k) as u32),
        valid_geometry(size, pow2(k) as u32) ==> size > 0 && size % (pow2(k) as u64) == 0,
{
    vstd::arithmetic::power2::lemma2_to64();
    vstd::arithmetic::power2::lemma_pow2_strictly_increases(k, 32);
    if k > 9 {
        vstd::arithmetic::power2::lemma_pow2_strictly_increases(9, k);
    }
    vstd::arithmetic::power2::lemma_pow2_pos(k);
    crate::injection::lemma_pow2_is_pow2(k);
    let b = pow2(k) as int;
    if 0 < n && n * pow2(k) == size {
        assert(n * b % b == 0) by (nonlinear_arith)
            requires
                b > 0,
        ;
        assert(size > 0) by (nonlinear_arith)
            requires
                n > 0,
                b > 0,
                size == n * b,
        ;
    }
}

proof fn lemma_pow2_is_pow2(k: nat)
    ensures
        is_pow2(pow2(k) as int),
    decreases k,
{
    reveal(is_pow2);
    vstd::arithmetic::power2::lemma2_to64();
    if k > 0 {
        lemma_pow2_is_pow2((k - 1) as nat);
        vstd::arithmetic::power2::lemma_pow2_unfold(k);
    }
}

/// Blocks smaller than 512 bytes, sizes that are no whole number of blocks and
/// empty devices are refused.
pub proof fn other_geometries_are_refused(size: u64, lbs: u32)
    requires
        lbs > 0,
    ensures
        lbs < 512 || size == 0 || size % (lbs as u64) != 0 || !is_pow2(lbs as int)
            ==> !valid_geometry(size, lbs),
{
}

/// What the device announces: its size in sectors, requests no larger than its
/// buffer, a volatile cache so that flushes arrive, and discards and
/// write-zeroes of up to 2 GiB in whole blocks.
pub proof fn announcements_hold(size: u64, lbs: u32, max_io_buf_bytes: u32)
    requires
        valid_geometry(size, lbs),
    ensures
        ({
            let p = announced(size, lbs, max_io_buf_bytes);
            &&& p.types == 3
            &&& p.basic.attrs == 4
            &&& p.basic.dev_sectors * 512 == size
            &&& p.basic.max_sectors * 512 <= max_io_buf_bytes < (p.basic.max_sectors + 1) * 512
            &&& pow2(p.basic.logical_bs_shift as nat) == lbs
            &&& p.basic.physical_bs_shift == p.basic.logical_bs_shift
            &&& p.basic.io_min_shift == p.basic.logical_bs_shift
            &&& p.basic.io_opt_shift == 12
            &&& p.discard.discard_granularity == lbs
            &&& p.discard.max_discard_sectors * 512 == 0x8000_0000
            &&& p.discard.max_write_zeroes_sectors * 512 == 0x8000_0000
            &&& p.discard.max_discard_segments == 1
        }),
{
    crate::fault::announced_shift_is_block_size(size, lbs, max_io_buf_bytes);
    let shift = announced(size, lbs, max_io_buf_bytes).basic.logical_bs_shift as nat;
    vstd::arithmetic::power2::lemma2_to64();
    if shift < 9 {
        vstd::arithmetic::power2::lemma_pow2_strictly_increases(shift, 9);
    }
    vstd::arithmetic::power2::lemma_pow2_adds((shift - 9) as nat, 9);
    let rest = pow2((shift - 9) as nat) as int;
    let l = lbs as int;
    let s = size as int;
    assert(s % 512 == 0) by (nonlinear_arith)
        requires
            l == rest * 512,
            s % l == 0,
            l > 0,
    {
        let q = s / l;
        assert(s == q * l);
        assert(q * (rest * 512) == (q * rest) * 512);
    }
}

/// A fresh device has a policy that injects nothing, unless told otherwise,
/// and never fails, lies or hangs.
pub proof fn no_faults_without_a_policy(device: FaultState)
    requires
        device.disk.policy == (Policy { error_pm: 0, flush_lie_pm: 0, hang_pm: 0 }),
    ensures
        !device.hangs(),
        !device.disk.write_errors(),
        !device.disk.flush_lies(),
        device.rolled() == device.disk,
{
}

/// Before a flush nothing that was served is durable: while the cache has
/// room, a crash that drops it undoes every write, discard and write-zeroes.
pub proof fn nothing_is_durable_before_a_flush(disk: Disk, cmd: IoCmd, buf: Seq<u8>)
    requires
        disk.wf(),
        cmd.op != 2,
        cmd.len <= buf.len() || cmd.op != 1,
        entry_bytes(disk.volatile) + cmd.len <= disk.cache_cap,
    ensures
        served_disk(disk, cmd, buf).committed == disk.committed,
        served_disk(disk, cmd, buf).crashed(CrashMode::Drop).visible() == disk.committed,
{
    if cmd.op == 1 {
        unflushed_writes_can_be_lost(disk, cmd.off, buf.take(cmd.len as int));
    } else if cmd.op == 3 || cmd.op == 5 {
        unflushed_discards_wait_in_the_cache(disk, cmd.off, cmd.len);
    }
    drop_crash_reverts_to_committed(served_disk(disk, cmd, buf));
}

/// What was flushed survives, whatever is written after it and lost: with
/// honest flushes a crash never takes back more than what came after the last.
pub proof fn a_crash_takes_back_only_what_was_not_flushed(
    disk: Disk,
    flush: IoCmd,
    later: IoCmd,
    buf: Seq<u8>,
)
    requires
        disk.wf(),
        disk.policy.flush_lie_pm == 0,
        disk.stats.flushes < u64::MAX,
        flush.op == 2,
        later.op == 1 || later.op == 3 || later.op == 5,
        later.len <= buf.len() || later.op != 1,
        later.len <= disk.cache_cap,
    ensures
        served_disk(served_disk(disk, flush, buf), later, buf).crashed(CrashMode::Drop).visible()
            == disk.visible(),
{
    let flushed = served_disk(disk, flush, buf);
    a_served_flush_is_durable(disk, flush, buf, CrashMode::Drop);
    crate::model::lemma_layered_len(disk.committed, disk.volatile);
    assert(entry_bytes(flushed.volatile) == 0);
    nothing_is_durable_before_a_flush(flushed, later, buf);
}

} // verus!
