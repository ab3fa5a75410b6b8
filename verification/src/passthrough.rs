//! What a tracked device promises to those who use it: what is written goes to
//! the backing store at the same place and is read back from there, and
//! nothing that may have changed goes unreported.

use vstd::arithmetic::power2::pow2;
use vstd::prelude::*;

use crate::era::{covered, is_diff, DirtyRange, EraMap};
use crate::number::{number, NumberError};
use crate::target::{announced, is_positive, turn_of, turned_map, BackingIo, IoPhase, IoTurn};
use crate::text::{decimal, trimmed};
use crate::ublk::IoCmd;

verus! {

/// The backing store after it carried out an IO; `data` is what a write hands
/// over.
pub open spec fn carried_out(store: Seq<u8>, io: BackingIo, data: Seq<u8>) -> Seq<u8> {
    match io {
        BackingIo::Write { off, len } => Seq::new(
            store.len(),
            |i: int|
                if off <= i < off + len {
                    data[i - off]
                } else {
                    store[i]
                },
        ),
        BackingIo::PunchHole { off, bytes } => Seq::new(
            store.len(),
            |i: int|
                if off <= i < off + bytes {
                    0u8
                } else {
                    store[i]
                },
        ),
        _ => store,
    }
}

/// What an IO brings back from the backing store.
pub open spec fn brought_back(store: Seq<u8>, io: BackingIo) -> Seq<u8> {
    match io {
        BackingIo::Read { off, len } => store.subrange(off as int, off + len),
        _ => Seq::empty(),
    }
}

/// A write reaches the backing store where it was meant to go, and nowhere
/// else.
pub proof fn a_write_lands_at_its_offset(store: Seq<u8>, cmd: IoCmd, data: Seq<u8>, i: int)
    requires
        cmd.op == 1,
        cmd.len <= u32::MAX,
        data.len() == cmd.len,
        0 <= i < store.len(),
    ensures
        turn_of(cmd, IoPhase::Driver) matches IoTurn::Submit { io } && {
            let after = carried_out(store, io, data);
            &&& after.len() == store.len()
            &&& cmd.off <= i < cmd.off + cmd.len ==> after[i] == data[i - cmd.off]
            &&& !(cmd.off <= i < cmd.off + cmd.len) ==> after[i] == store[i]
        },
{
}

/// A read brings back what the backing store holds at its offset, and leaves
/// the store alone.
pub proof fn a_read_comes_from_its_offset(store: Seq<u8>, cmd: IoCmd, data: Seq<u8>)
    requires
        cmd.op == 0,
        cmd.len <= u32::MAX,
        cmd.off + cmd.len <= store.len(),
    ensures
        turn_of(cmd, IoPhase::Driver) matches IoTurn::Submit { io } && {
            &&& brought_back(store, io).len() == cmd.len
            &&& forall|k: int|
                0 <= k < cmd.len ==> brought_back(store, io)[k] == store[cmd.off + k]
            &&& carried_out(store, io, data) == store
        },
{
}

/// What is written is read back, whatever the offset.
pub proof fn what_is_written_is_read_back(
    store: Seq<u8>,
    write: IoCmd,
    read: IoCmd,
    data: Seq<u8>,
)
    requires
        write.op == 1,
        read.op == 0,
        read.off == write.off,
        read.len == write.len,
        write.len <= u32::MAX,
        data.len() == write.len,
        write.off + write.len <= store.len(),
    ensures
        turn_of(write, IoPhase::Driver) matches IoTurn::Submit { io: w } && turn_of(
            read,
            IoPhase::Driver,
        ) matches IoTurn::Submit { io: r } && brought_back(carried_out(store, w, data), r) == data,
{
    let w = turn_of(write, IoPhase::Driver)->io;
    let r = turn_of(read, IoPhase::Driver)->io;
    assert(brought_back(carried_out(store, w, data), r) =~= data);
}

/// A discard zeroes its range on the backing store, whatever its length, and
/// nothing else.
pub proof fn a_discard_zeroes_its_range(store: Seq<u8>, cmd: IoCmd, data: Seq<u8>, i: int)
    requires
        cmd.op == 3,
        0 <= i < store.len(),
    ensures
        turn_of(cmd, IoPhase::Driver) matches IoTurn::Submit { io } && {
            let after = carried_out(store, io, data);
            &&& after.len() == store.len()
            &&& after[i] == if cmd.off <= i && i - cmd.off < cmd.len {
                0
            } else {
                store[i]
            }
        },
{
}

/// A flush, and nothing else, makes the backing store durable.
pub proof fn a_flush_syncs_the_store(cmd: IoCmd)
    ensures
        cmd.op == 2 <==> turn_of(cmd, IoPhase::Driver) == (IoTurn::Submit { io: BackingIo::Fsync }),
{
}

/// Whatever is not a read, write, flush or discard is refused with EINVAL and
/// never reaches the backing store.
pub proof fn other_requests_are_refused(map: EraMap, cmd: IoCmd)
    ensures
        cmd.op > 3 ==> turn_of(cmd, IoPhase::Driver) == (IoTurn::Complete { res: (-22) as i32 }),
        cmd.op <= 3 ==> turn_of(cmd, IoPhase::Driver) is Submit,
        turned_map(map, cmd, IoPhase::Driver) == map,
{
}

/// Once the backing store is done, the driver gets its result, whatever the
/// request was; only EAGAIN has the same IO submitted again.
pub proof fn results_are_handed_on(cmd: IoCmd, res: i32)
    ensures
        res != -11 ==> turn_of(cmd, IoPhase::Backend { res }) == (IoTurn::Complete { res }),
        res == -11 ==> turn_of(cmd, IoPhase::Backend { res }) == turn_of(cmd, IoPhase::Driver),
{
}

/// Every write and every discard that is over is stamped in full, whatever its
/// length and its result: a chunk that shares a byte with it counts as written
/// in the current era, and every other chunk stays as it was.
pub proof fn writes_and_discards_are_stamped(map: EraMap, cmd: IoCmd, res: i32, c: int)
    requires
        map.wf(),
        cmd.op == 1 || cmd.op == 3,
        res != -11,
        0 <= c < map.eras.len(),
    ensures
        ({
            let after = turned_map(map, cmd, IoPhase::Backend { res });
            let shares = exists|x: int|
                cmd.off <= x < cmd.off + cmd.len && #[trigger] (x / (map.granularity as int)) == c;
            &&& after == map.marked(cmd.off, cmd.len)
            &&& after.eras.len() == map.eras.len()
            &&& after.current_era == map.current_era
            &&& after.generation == map.generation
            &&& shares && map.eras[c] <= map.current_era ==> after.eras[c] == map.current_era
            &&& !shares || map.eras[c] > map.current_era ==> after.eras[c] == map.eras[c]
        }),
{
    crate::cbt::touched_means_overlap(map, cmd.off, cmd.len, c);
    if map.touched(cmd.off, cmd.len, c) {
        let x = choose|x: int|
            cmd.off <= x < cmd.off + cmd.len && #[trigger] map.chunk_of(x) == c;
        assert(x / (map.granularity as int) == c);
    }
    if exists|x: int|
        cmd.off <= x < cmd.off + cmd.len && #[trigger] (x / (map.granularity as int)) == c {
        let x = choose|x: int|
            cmd.off <= x < cmd.off + cmd.len && #[trigger] (x / (map.granularity as int)) == c;
        assert(map.chunk_of(x) == c);
    }
}

/// Reads and flushes stamp nothing, and neither does an IO that is to be tried
/// again.
pub proof fn nothing_else_is_stamped(map: EraMap, cmd: IoCmd, res: i32)
    requires
        cmd.op != 1 && cmd.op != 3 || res == -11,
    ensures
        turned_map(map, cmd, IoPhase::Backend { res }) == map,
{
}

/// A backup that is taken after a write or discard reports every byte of it,
/// whatever its length and its result.
pub proof fn what_may_have_changed_is_reported(
    map: EraMap,
    cmd: IoCmd,
    res: i32,
    since: u32,
    ranges: Seq<DirtyRange>,
    byte: int,
)
    requires
        map.wf(),
        cmd.op == 1 || cmd.op == 3,
        res != -11,
        since < map.current_era,
        is_diff(turned_map(map, cmd, IoPhase::Backend { res }), since, ranges),
        cmd.off <= byte < cmd.off + cmd.len,
        byte < map.dev_size,
    ensures
        exists|k: int|
            0 <= k < ranges.len() && (#[trigger] ranges[k]).offset <= byte && byte
                < ranges[k].offset + ranges[k].len,
{
    let g = map.granularity as int;
    crate::era::lemma_chunk_exists(map.dev_size, map.granularity, byte);
    writes_and_discards_are_stamped(map, cmd, res, byte / g);
    assert(covered(ranges, byte));
    let k = choose|k: int| 0 <= k < ranges.len() && (#[trigger] ranges[k]).has(byte);
    assert(ranges[k].offset <= byte);
}

/// A consumer in step before stays in step when a write or discard may have
/// changed anything in its range, and when any other request changed nothing.
pub proof fn completion_keeps_the_consumer_in_step(
    device: Seq<u8>,
    landed: Seq<u8>,
    shadow: Seq<u8>,
    map: EraMap,
    cursor: u32,
    cmd: IoCmd,
    res: i32,
)
    requires
        map.wf(),
        crate::cbt::in_step(device, shadow, map, cursor),
        cursor < map.current_era,
        res != -11,
        landed.len() == device.len(),
        forall|i: int|
            0 <= i < device.len() && !((cmd.op == 1 || cmd.op == 3) && cmd.off <= i < cmd.off
                + cmd.len) ==> landed[i] == device[i],
    ensures
        crate::cbt::in_step(
            landed,
            shadow,
            turned_map(map, cmd, IoPhase::Backend { res }),
            cursor,
        ),
{
    crate::target::completion_keeps_step(device, landed, shadow, map, cursor, cmd, res);
}

/// What a tracked device announces: its size in whole sectors, requests no
/// larger than its buffer, a volatile cache so that flushes arrive, discards
/// of whole blocks exactly when the backing can execute them, and never
/// write-zeroes.
pub proof fn announcements_hold(
    discard: bool,
    dev_size: u64,
    bs_shifts: (u8, u8),
    max_io_buf_bytes: u32,
)
    requires
        bs_shifts.0 < 32,
    ensures
        ({
            let p = announced(discard, dev_size, bs_shifts, max_io_buf_bytes);
            &&& p.basic.dev_sectors * 512 <= dev_size < (p.basic.dev_sectors + 1) * 512
            &&& p.basic.max_sectors * 512 <= max_io_buf_bytes < (p.basic.max_sectors + 1) * 512
            &&& p.basic.logical_bs_shift == bs_shifts.0
            &&& p.basic.physical_bs_shift == bs_shifts.1
            &&& p.basic.io_opt_shift == 12 && p.basic.io_min_shift == 9
            &&& p.basic.attrs == 4
            &&& p.types % 2 == 1
            &&& p.types == 3 <==> discard
            &&& p.discard.max_discard_sectors > 0 <==> discard
            &&& p.discard.max_discard_segments == 1 <==> discard
            &&& p.discard.max_write_zeroes_sectors == 0
            &&& discard ==> p.discard.discard_granularity == pow2(bs_shifts.0 as nat)
            &&& discard ==> p.discard.max_discard_sectors * 512 == 0x8000_0000
        }),
{
    let s = bs_shifts.0 as u32;
    vstd::arithmetic::power2::lemma2_to64();
    vstd::arithmetic::power2::lemma_pow2_strictly_increases(s as nat, 32);
    vstd::bits::lemma_u32_shl_is_mul(1u32, s);
    assert((1u32 << bs_shifts.0) == (1u32 << s));
}

/// A limit of the system, written as a number on a line of its own, counts as
/// positive exactly when it is.
pub proof fn limits_are_read(v: u64)
    ensures
        is_positive(decimal(v as nat) + seq!['\n']) <==> v > 0,
{
    crate::number::written_numbers_are_read(v as nat);
    crate::text::lemma_line_trims(v as nat);
}

/// A text counts as a positive limit only if a number stands in it, with
/// nothing but white space around, and that number is not zero.
pub proof fn other_texts_are_no_limits(text: Seq<char>)
    ensures
        is_positive(text) ==> number(trimmed(text)) is Ok,
        is_positive(text) ==> number(trimmed(text)) != Ok::<nat, NumberError>(0),
        number(trimmed(text)) matches Ok(v) ==> (is_positive(text) <==> v > 0),
{
}

} // verus!
