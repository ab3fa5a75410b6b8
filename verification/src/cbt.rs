//! What a backup consumer may rely on.
//!
//! A consumer keeps a shadow image and a cursor, the era that its last backup
//! closed. It copies the ranges of a diff since the cursor, and the image is
//! then the device again, whatever was written in between.

use vstd::prelude::*;

use crate::era::{chunk_count, covered, is_diff, DirtyRange, EraMap};

verus! {

/// A chunk counts as touched by a write exactly when they share a byte.
pub proof fn touched_means_overlap(map: EraMap, offset: u64, len: u64, i: int)
    requires
        map.wf(),
        0 <= i,
    ensures
        map.touched(offset, len, i) <==> exists|byte: int|
            offset <= byte < offset + len && #[trigger] map.chunk_of(byte) == i,
{
    let g = map.granularity as int;
    if map.touched(offset, len, i) {
        let start = i * g;
        let byte = if start < offset {
            offset as int
        } else {
            start
        };
        assert(offset <= byte < offset + len && byte / g == i) by (nonlinear_arith)
            requires
                g > 0,
                len > 0,
                offset as int / g <= i <= (offset + len - 1) / g,
                start == i * g,
                byte == if start < offset {
                    offset as int
                } else {
                    start
                },
        ;
        assert(map.chunk_of(byte) == i);
    }
    if exists|byte: int| offset <= byte < offset + len && #[trigger] map.chunk_of(byte) == i {
        let byte = choose|byte: int|
            offset <= byte < offset + len && #[trigger] map.chunk_of(byte) == i;
        assert(offset as int / g <= byte / g <= (offset + len - 1) / g) by (nonlinear_arith)
            requires
                g > 0,
                offset <= byte <= offset + len - 1,
        ;
    }
}

/// A diff is determined by the map: there is only one answer to "what changed
/// since `since`".
pub proof fn diff_is_unique(map: EraMap, since: u32, a: Seq<DirtyRange>, b: Seq<DirtyRange>)
    requires
        is_diff(map, since, a),
        is_diff(map, since, b),
    ensures
        a == b,
{
    lemma_same_prefix(map, since, a, b, a.len() as int);
    lemma_same_prefix(map, since, b, a, b.len() as int);
    assert(a =~= b);
}

/// The first `n` ranges of a diff are those of any other.
proof fn lemma_same_prefix(
    map: EraMap,
    since: u32,
    a: Seq<DirtyRange>,
    b: Seq<DirtyRange>,
    n: int,
)
    requires
        is_diff(map, since, a),
        is_diff(map, since, b),
        0 <= n <= a.len(),
    ensures
        n <= b.len(),
        forall|k: int| 0 <= k < n ==> a[k] == b[k],
    decreases n,
{
    if n > 0 {
        lemma_same_prefix(map, since, a, b, n - 1);
        let k = n - 1;
        lemma_starts_no_later(map, since, a, b, k);
        lemma_starts_no_later(map, since, b, a, k);
        lemma_ends_no_later(map, since, a, b, k);
        lemma_ends_no_later(map, since, b, a, k);
    }
}

proof fn lemma_starts_no_later(
    map: EraMap,
    since: u32,
    a: Seq<DirtyRange>,
    b: Seq<DirtyRange>,
    k: int,
)
    requires
        is_diff(map, since, a),
        is_diff(map, since, b),
        0 <= k < a.len(),
        k <= b.len(),
        forall|j: int| 0 <= j < k ==> a[j] == b[j],
    ensures
        k < b.len(),
        b[k].offset <= a[k].offset,
{
    let byte = a[k].offset as int;
    assert(a[k].has(byte));
    assert(covered(a, byte));
    assert(covered(b, byte));
    let j = choose|j: int| 0 <= j < b.len() && (#[trigger] b[j]).has(byte);
    if j < k {
        assert(a[j].end() < a[k].offset);
    }
    if k < j {
        assert(b[k].end() < b[j].offset);
    }
}

proof fn lemma_ends_no_later(
    map: EraMap,
    since: u32,
    a: Seq<DirtyRange>,
    b: Seq<DirtyRange>,
    k: int,
)
    requires
        is_diff(map, since, a),
        is_diff(map, since, b),
        0 <= k < a.len(),
        k < b.len(),
        a[k].offset == b[k].offset,
    ensures
        b[k].len <= a[k].len,
{
    if b[k].len > a[k].len {
        let byte = a[k].end();
        assert(b[k].has(byte));
        assert(covered(b, byte));
        assert(covered(a, byte));
        let j = choose|j: int| 0 <= j < a.len() && (#[trigger] a[j]).has(byte);
        if j < k {
            assert(a[j].end() < a[k].offset);
        }
        if k < j {
            assert(a[k].end() < a[j].offset);
        }
    }
}

/// A diff since era 0 reports everything ever written.
pub proof fn since_zero_is_everything_written(
    map: EraMap,
    ranges: Seq<DirtyRange>,
    byte: int,
)
    requires
        is_diff(map, 0, ranges),
        0 <= byte < map.dev_size,
    ensures
        covered(ranges, byte) <==> map.eras[map.chunk_of(byte)] > 0,
{
    assert(covered(ranges, byte) <==> map.changed(0, byte));
}

/// How many chunks the ranges are made of; the last chunk of the device may be
/// short.
pub open spec fn chunks_in(ranges: Seq<DirtyRange>, granularity: u64) -> nat
    decreases ranges.len(),
{
    if ranges.len() == 0 {
        0
    } else {
        chunks_in(ranges.drop_last(), granularity) + chunk_count(
            ranges.last().len,
            granularity,
        ) as nat
    }
}

/// How many of the first `n` chunks were ever written.
spec fn written_below(map: EraMap, n: int) -> nat {
    map.eras.take(n).filter(|e: u32| e > 0).len()
}

/// The chunk after the first `k` ranges.
spec fn edge(map: EraMap, ranges: Seq<DirtyRange>, k: int) -> int {
    if k == 0 {
        0
    } else {
        chunk_count(ranges[k - 1].end() as u64, map.granularity)
    }
}

/// Chunks `a` to `b` were all written, or none of them was.
proof fn lemma_run(map: EraMap, a: int, b: int, all: bool)
    requires
        0 <= a <= b <= map.eras.len(),
        forall|i: int| a <= i < b ==> ((#[trigger] map.eras[i]) > 0) == all,
    ensures
        written_below(map, b) == written_below(map, a) + if all {
            b - a
        } else {
            0
        },
    decreases b - a,
{
    if a < b {
        lemma_run(map, a, b - 1, all);
        reveal(Seq::filter);
        assert(map.eras.take(b).drop_last() =~= map.eras.take(b - 1));
        assert(map.eras.take(b).last() == map.eras[b - 1]);
    }
}

/// Chunk `i` was written exactly when a range holds its first byte.
proof fn lemma_chunk_is_covered(map: EraMap, ranges: Seq<DirtyRange>, i: int)
    requires
        map.wf(),
        is_diff(map, 0, ranges),
        0 <= i < map.eras.len(),
    ensures
        0 <= i * map.granularity < map.dev_size,
        map.eras[i] > 0 <==> covered(ranges, i * map.granularity),
{
    let g = map.granularity as int;
    crate::era::lemma_chunk_starts_inside(map.dev_size, map.granularity, i);
    assert(0 <= i * g && i * g < (i + 1) * g) by (nonlinear_arith)
        requires
            g > 0,
            i >= 0,
    ;
    crate::era::lemma_chunk_of(map.granularity, i, i * g);
    assert(covered(ranges, i * g) <==> map.changed(0, i * g));
}

/// The chunks from the edge behind the first `k` ranges up to chunk `b` were
/// not written, if the next range begins there or later.
proof fn lemma_gap(map: EraMap, ranges: Seq<DirtyRange>, k: int, b: int)
    requires
        map.wf(),
        is_diff(map, 0, ranges),
        0 <= k <= ranges.len(),
        edge(map, ranges, k) <= b <= map.eras.len(),
        k < ranges.len() ==> b * map.granularity <= ranges[k].offset,
    ensures
        forall|i: int| edge(map, ranges, k) <= i < b && 0 <= i ==> (#[trigger] map.eras[i]) == 0,
{
    let g = map.granularity as int;
    assert forall|i: int| edge(map, ranges, k) <= i < b && 0 <= i implies (#[trigger] map.eras[i])
        == 0 by {
        lemma_chunk_is_covered(map, ranges, i);
        let byte = i * g;
        assert(byte < b * g) by (nonlinear_arith)
            requires
                i < b,
                g > 0,
                byte == i * g,
        ;
        if covered(ranges, byte) {
            let j = choose|j: int| 0 <= j < ranges.len() && (#[trigger] ranges[j]).has(byte);
            if j < k {
                let end = ranges[k - 1].end();
                if j < k - 1 {
                    assert(ranges[j].end() < ranges[k - 1].offset);
                }
                let c = edge(map, ranges, k);
                crate::era::lemma_chunks_reach_end(end as u64, map.granularity);
                assert(byte >= end) by (nonlinear_arith)
                    requires
                        c * g >= end,
                        i >= c,
                        g > 0,
                        byte == i * g,
                ;
            } else if j > k {
                assert(ranges[k].end() < ranges[j].offset);
            }
        }
    }
}

/// The first `k` ranges are made of as many chunks as were written up to their
/// edge.
proof fn lemma_chunks_up_to(map: EraMap, ranges: Seq<DirtyRange>, k: int)
    requires
        map.wf(),
        is_diff(map, 0, ranges),
        0 <= k <= ranges.len(),
    ensures
        0 <= edge(map, ranges, k) <= map.eras.len(),
        written_below(map, edge(map, ranges, k)) == chunks_in(ranges.take(k), map.granularity),
    decreases k,
{
    let g = map.granularity as int;
    if k == 0 {
        reveal(Seq::filter);
        assert(map.eras.take(0) =~= Seq::empty());
        assert(ranges.take(0) =~= Seq::empty());
    } else {
        lemma_chunks_up_to(map, ranges, k - 1);
        let r = ranges[k - 1];
        let end = r.end();
        let from = edge(map, ranges, k - 1);
        let first = r.offset as int / g;
        let last = edge(map, ranges, k);
        let size = map.dev_size as int;
        let total = chunk_count(map.dev_size, map.granularity);
        let len = r.len as int;
        let own = chunk_count(r.len, map.granularity);
        assert(r.offset == first * g) by (nonlinear_arith)
            requires
                g > 0,
                r.offset as int % g == 0,
                first == r.offset as int / g,
        ;
        assert(first >= 0) by (nonlinear_arith)
            requires
                g > 0,
                first == r.offset as int / g,
        ;
        assert(last == first + own && own > 0) by (nonlinear_arith)
            requires
                g > 0,
                len > 0,
                end == first * g + len,
                last == (end + g - 1) / g,
                own == (len + g - 1) / g,
        ;
        assert(last <= total) by (nonlinear_arith)
            requires
                g > 0,
                end <= size,
                last == (end + g - 1) / g,
                total == (size + g - 1) / g,
        ;
        if k > 1 {
            let before = ranges[k - 2].end();
            assert(before < r.offset);
            assert(from <= first) by (nonlinear_arith)
                requires
                    g > 0,
                    before <= first * g,
                    from == (before + g - 1) / g,
            ;
        }
        lemma_gap(map, ranges, k - 1, first);
        lemma_run(map, from, first, false);
        assert forall|i: int| first <= i < last implies ((#[trigger] map.eras[i]) > 0) == true by {
            lemma_chunk_is_covered(map, ranges, i);
            crate::era::lemma_chunk_starts_inside(end as u64, map.granularity, i);
            assert(i * g >= first * g) by (nonlinear_arith)
                requires
                    i >= first,
                    g > 0,
            ;
            assert(r.has(i * g));
        }
        lemma_run(map, first, last, true);
        assert(ranges.take(k).drop_last() =~= ranges.take(k - 1));
        assert(ranges.take(k).last() == r);
    }
}

/// The number of chunks ever written is that of the chunks in the diff since
/// era 0, and no more than the device has.
pub proof fn written_chunks_are_the_diff_since_zero(map: EraMap, ranges: Seq<DirtyRange>)
    requires
        map.wf(),
        is_diff(map, 0, ranges),
    ensures
        map.written() == chunks_in(ranges, map.granularity),
        map.written() <= map.eras.len(),
{
    let n = ranges.len() as int;
    let all = map.eras.len() as int;
    lemma_chunks_up_to(map, ranges, n);
    lemma_gap(map, ranges, n, all);
    lemma_run(map, edge(map, ranges, n), all, false);
    assert(map.eras.take(all) =~= map.eras);
    assert(ranges.take(n) =~= ranges);
    map.eras.lemma_filter_len(|e: u32| e > 0);
}

/// Maps with the same chunks written count the same.
proof fn lemma_same_written(a: Seq<u32>, b: Seq<u32>)
    requires
        a.len() == b.len(),
        forall|i: int| 0 <= i < a.len() ==> ((#[trigger] a[i]) > 0 <==> b[i] > 0),
    ensures
        a.filter(|e: u32| e > 0).len() == b.filter(|e: u32| e > 0).len(),
    decreases a.len(),
{
    reveal(Seq::filter);
    if a.len() > 0 {
        assert(a.last() == a[a.len() - 1]);
        assert forall|i: int| 0 <= i < a.len() - 1 implies ((#[trigger] a.drop_last()[i]) > 0
            <==> b.drop_last()[i] > 0) by {
            assert(a.drop_last()[i] == a[i]);
        }
        lemma_same_written(a.drop_last(), b.drop_last());
    }
}

/// A write to chunks that were written before, in this era or an earlier one,
/// leaves their number alone, and so does a checkpoint.
pub proof fn written_chunks_count_once(map: EraMap, offset: u64, len: u64)
    ensures
        (forall|i: int|
            0 <= i < map.eras.len() && #[trigger] map.touched(offset, len, i) ==> map.eras[i] > 0)
            ==> map.marked(offset, len).written() == map.written(),
        map.marked(offset, len).marked(offset, len).written() == map.marked(offset, len).written(),
        map.checkpointed().written() == map.written(),
{
    let once = map.marked(offset, len);
    assert(once.marked(offset, len).eras =~= once.eras);
    if forall|i: int|
        0 <= i < map.eras.len() && #[trigger] map.touched(offset, len, i) ==> map.eras[i] > 0 {
        assert forall|i: int| 0 <= i < once.eras.len() implies ((#[trigger] once.eras[i]) > 0
            <==> map.eras[i] > 0) by {
            if map.touched(offset, len, i) {
                assert(map.eras[i] > 0);
            }
        }
        lemma_same_written(once.eras, map.eras);
    }
}

/// Right after a checkpoint nothing has changed since the era it closed.
pub proof fn checkpoint_leaves_empty_diff(map: EraMap, ranges: Seq<DirtyRange>)
    requires
        map.wf(),
        map.current_era < u32::MAX,
        forall|i: int| 0 <= i < map.eras.len() ==> map.eras[i] <= map.current_era,
        is_diff(map.checkpointed(), map.current_era, ranges),
    ensures
        ranges.len() == 0,
{
    if ranges.len() > 0 {
        let byte = ranges[0].offset as int;
        assert(ranges[0].has(byte));
        assert(covered(ranges, byte));
        crate::era::lemma_chunk_exists(map.dev_size, map.granularity, byte);
    }
}

/// Checkpoints close one era after the other, so no two close the same.
pub proof fn checkpoints_close_consecutive_eras(map: EraMap)
    requires
        map.current_era < u32::MAX,
    ensures
        map.checkpointed().current_era == map.current_era + 1,
        map.checkpointed().eras == map.eras,
        map.checkpointed().generation == map.generation,
{
}

/// No era ever exceeds the current one, if none does at the start.
pub proof fn eras_stay_within_current(map: EraMap, offset: u64, len: u64)
    requires
        forall|i: int| 0 <= i < map.eras.len() ==> map.eras[i] <= map.current_era,
    ensures
        ({
            let m = map.marked(offset, len);
            forall|i: int| 0 <= i < m.eras.len() ==> (#[trigger] m.eras[i]) <= m.current_era
        }),
        ({
            let m = map.all_dirty();
            forall|i: int| 0 <= i < m.eras.len() ==> (#[trigger] m.eras[i]) <= m.current_era
        }),
        map.current_era < u32::MAX ==> ({
            let m = map.checkpointed();
            forall|i: int| 0 <= i < m.eras.len() ==> (#[trigger] m.eras[i]) <= m.current_era
        }),
{
}

/// After the fallback for stale metadata, a diff since any older era is one
/// range that spans the whole device.
pub proof fn all_dirty_reports_whole_device(
    map: EraMap,
    since: u32,
    ranges: Seq<DirtyRange>,
)
    requires
        map.wf(),
        map.dev_size > 0,
        since < map.current_era,
        is_diff(map.all_dirty(), since, ranges),
    ensures
        ranges == seq![DirtyRange { offset: 0, len: map.dev_size }],
{
    let all = map.all_dirty();
    let whole = seq![DirtyRange { offset: 0, len: map.dev_size }];
    assert forall|byte: int| 0 <= byte < all.dev_size implies (#[trigger] covered(whole, byte)
        <==> all.changed(since, byte)) by {
        crate::era::lemma_chunk_exists(map.dev_size, map.granularity, byte);
        assert(whole[0].has(byte));
    }
    assert(is_diff(all, since, whole)) by {
        assert(0int % (map.granularity as int) == 0) by (nonlinear_arith)
            requires
                map.granularity > 0,
        ;
    }
    diff_is_unique(all, since, ranges, whole);
}

/// Chunks that the consumer's image may have wrong were written in an era
/// newer than its cursor.
pub open spec fn in_step(device: Seq<u8>, shadow: Seq<u8>, map: EraMap, cursor: u32) -> bool {
    &&& device.len() == map.dev_size
    &&& shadow.len() == map.dev_size
    &&& forall|byte: int|
        0 <= byte < map.dev_size && device[byte] != shadow[byte] ==> #[trigger] map.changed(
            cursor,
            byte,
        )
}

/// `device` after `data` was written at `offset`.
pub open spec fn overwritten(device: Seq<u8>, offset: int, data: Seq<u8>) -> Seq<u8> {
    Seq::new(
        device.len(),
        |i: int|
            if offset <= i < offset + data.len() {
                data[i - offset]
            } else {
                device[i]
            },
    )
}

/// The consumer's image after the bytes of `ranges` were copied to it.
pub open spec fn refreshed(
    shadow: Seq<u8>,
    device: Seq<u8>,
    ranges: Seq<DirtyRange>,
) -> Seq<u8> {
    Seq::new(
        shadow.len(),
        |i: int|
            if covered(ranges, i) {
                device[i]
            } else {
                shadow[i]
            },
    )
}

/// The contract of a diff: a consumer that copies only the reported ranges
/// ends up with the device's image.
pub proof fn copying_the_diff_restores_the_image(
    device: Seq<u8>,
    shadow: Seq<u8>,
    map: EraMap,
    cursor: u32,
    ranges: Seq<DirtyRange>,
)
    requires
        in_step(device, shadow, map, cursor),
        is_diff(map, cursor, ranges),
    ensures
        refreshed(shadow, device, ranges) == device,
{
    assert forall|i: int| 0 <= i < device.len() implies refreshed(shadow, device, ranges)[i]
        == device[i] by {
        if device[i] != shadow[i] {
            assert(map.changed(cursor, i));
            assert(covered(ranges, i));
        }
    }
    assert(refreshed(shadow, device, ranges) =~= device);
}

/// A write that is stamped keeps the consumer in step, whether it lands fully,
/// partially or not at all: `landed` is any change confined to the range that
/// was stamped. So an errored or short write is covered too.
pub proof fn stamped_write_keeps_step(
    device: Seq<u8>,
    landed: Seq<u8>,
    shadow: Seq<u8>,
    map: EraMap,
    cursor: u32,
    offset: u64,
    len: u64,
)
    requires
        map.wf(),
        in_step(device, shadow, map, cursor),
        cursor < map.current_era,
        landed.len() == device.len(),
        forall|i: int|
            0 <= i < device.len() && !(offset <= i < offset + len) ==> landed[i] == device[i],
    ensures
        in_step(landed, shadow, map.marked(offset, len), cursor),
{
    let after = map.marked(offset, len);
    let g = map.granularity as int;
    assert forall|byte: int|
        0 <= byte < after.dev_size && landed[byte] != shadow[byte] implies #[trigger] after.changed(
        cursor,
        byte,
    ) by {
        crate::era::lemma_chunk_exists(map.dev_size, map.granularity, byte);
        if offset <= byte < offset + len {
            assert(offset as int / g <= byte / g <= (offset + len - 1) / g) by (nonlinear_arith)
                requires
                    g > 0,
                    offset <= byte <= offset + len - 1,
            ;
        } else {
            assert(map.changed(cursor, byte));
        }
    }
}

/// A checkpoint keeps the consumer in step.
pub proof fn checkpoint_keeps_step(device: Seq<u8>, shadow: Seq<u8>, map: EraMap, cursor: u32)
    requires
        in_step(device, shadow, map, cursor),
        map.current_era < u32::MAX,
    ensures
        in_step(device, shadow, map.checkpointed(), cursor),
{
    assert forall|byte: int|
        0 <= byte < map.dev_size && device[byte]
            != shadow[byte] implies #[trigger] map.checkpointed().changed(cursor, byte) by {
        assert(map.changed(cursor, byte));
    }
}

/// After an unclean restart the consumer is in step whatever the device holds:
/// the fallback reports everything.
pub proof fn recovery_restores_step(
    device: Seq<u8>,
    shadow: Seq<u8>,
    map: EraMap,
    cursor: u32,
)
    requires
        map.wf(),
        device.len() == map.dev_size,
        shadow.len() == map.dev_size,
        cursor < map.current_era,
    ensures
        in_step(device, shadow, map.all_dirty(), cursor),
{
    let all = map.all_dirty();
    assert forall|byte: int|
        0 <= byte < map.dev_size && device[byte] != shadow[byte] implies #[trigger] all.changed(
        cursor,
        byte,
    ) by {
        crate::era::lemma_chunk_exists(map.dev_size, map.granularity, byte);
    }
}

/// A backup that runs while writes keep landing: after the checkpoint that
/// closed era `closed`, every wrong byte of the image is still to be copied
/// or belongs to the next diff.
pub open spec fn backing_up(
    device: Seq<u8>,
    shadow: Seq<u8>,
    map: EraMap,
    closed: u32,
    pending: Set<int>,
) -> bool {
    &&& device.len() == map.dev_size
    &&& shadow.len() == map.dev_size
    &&& closed < map.current_era
    &&& forall|byte: int|
        0 <= byte < map.dev_size && device[byte] != shadow[byte] ==> #[trigger] map.changed(
            closed,
            byte,
        ) || pending.contains(byte)
}

/// A backup begins with a checkpoint and a diff since the old cursor.
pub proof fn backup_begins(
    device: Seq<u8>,
    shadow: Seq<u8>,
    map: EraMap,
    cursor: u32,
    closed: u32,
    ranges: Seq<DirtyRange>,
)
    requires
        in_step(device, shadow, map, cursor),
        closed < map.current_era,
        is_diff(map, cursor, ranges),
    ensures
        backing_up(device, shadow, map, closed, Set::new(|byte: int| covered(ranges, byte))),
{
    assert forall|byte: int|
        0 <= byte < map.dev_size && device[byte] != shadow[byte] implies #[trigger] map.changed(
        closed,
        byte,
    ) || Set::new(|byte: int| covered(ranges, byte)).contains(byte) by {
        assert(map.changed(cursor, byte));
        assert(covered(ranges, byte));
    }
}

/// A write that lands during a backup does not harm it.
pub proof fn backup_tolerates_writes(
    device: Seq<u8>,
    landed: Seq<u8>,
    shadow: Seq<u8>,
    map: EraMap,
    closed: u32,
    pending: Set<int>,
    offset: u64,
    len: u64,
)
    requires
        map.wf(),
        backing_up(device, shadow, map, closed, pending),
        landed.len() == device.len(),
        forall|i: int|
            0 <= i < device.len() && !(offset <= i < offset + len) ==> landed[i] == device[i],
    ensures
        backing_up(landed, shadow, map.marked(offset, len), closed, pending),
{
    let after = map.marked(offset, len);
    let g = map.granularity as int;
    assert forall|byte: int|
        0 <= byte < after.dev_size && landed[byte] != shadow[byte] implies #[trigger] after.changed(
        closed,
        byte,
    ) || pending.contains(byte) by {
        crate::era::lemma_chunk_exists(map.dev_size, map.granularity, byte);
        if offset <= byte < offset + len {
            assert(offset as int / g <= byte / g <= (offset + len - 1) / g) by (nonlinear_arith)
                requires
                    g > 0,
                    offset <= byte <= offset + len - 1,
            ;
        } else {
            assert(map.changed(closed, byte) || pending.contains(byte));
        }
    }
}

/// Copying `[offset, offset + len)` settles those bytes.
pub proof fn backup_copies(
    device: Seq<u8>,
    shadow: Seq<u8>,
    map: EraMap,
    closed: u32,
    pending: Set<int>,
    offset: int,
    len: int,
)
    requires
        backing_up(device, shadow, map, closed, pending),
        0 <= offset <= offset + len <= map.dev_size,
    ensures
        backing_up(
            device,
            overwritten(shadow, offset, device.subrange(offset, offset + len)),
            map,
            closed,
            pending.difference(Set::new(|byte: int| offset <= byte < offset + len)),
        ),
{
    let copied = overwritten(shadow, offset, device.subrange(offset, offset + len));
    let left = pending.difference(Set::new(|byte: int| offset <= byte < offset + len));
    assert forall|byte: int|
        0 <= byte < map.dev_size && device[byte] != copied[byte] implies #[trigger] map.changed(
        closed,
        byte,
    ) || left.contains(byte) by {
        assert(map.changed(closed, byte) || pending.contains(byte));
    }
}

/// When everything was copied, the era that the backup closed is a cursor.
pub proof fn backup_ends(
    device: Seq<u8>,
    shadow: Seq<u8>,
    map: EraMap,
    closed: u32,
    pending: Set<int>,
)
    requires
        backing_up(device, shadow, map, closed, pending),
        forall|byte: int| 0 <= byte < map.dev_size ==> !(#[trigger] pending.contains(byte)),
    ensures
        in_step(device, shadow, map, closed),
{
    assert forall|byte: int|
        0 <= byte < map.dev_size && device[byte] != shadow[byte] implies #[trigger] map.changed(
        closed,
        byte,
    ) by {
        assert(map.changed(closed, byte) || pending.contains(byte));
    }
}

/// What is written can be read back from where it was put, and nothing else
/// changes.
pub proof fn what_is_put_can_be_read_back(device: Seq<u8>, offset: int, data: Seq<u8>, i: int)
    requires
        0 <= offset <= offset + data.len() <= device.len(),
        0 <= i < device.len(),
    ensures
        overwritten(device, offset, data).len() == device.len(),
        overwritten(device, offset, data).subrange(offset, offset + data.len()) == data,
        i < offset || offset + data.len() <= i ==> overwritten(device, offset, data)[i]
            == device[i],
{
    assert(overwritten(device, offset, data).subrange(offset, offset + data.len()) =~= data);
}

/// A diff says exactly which bytes lie in a chunk that was written after the
/// era it was asked for, in ranges of whole chunks that are in order and do
/// not touch one another.
pub proof fn a_diff_is_exact(map: EraMap, since: u32, ranges: Seq<DirtyRange>, byte: int)
    requires
        map.wf(),
        is_diff(map, since, ranges),
        0 <= byte < map.dev_size,
    ensures
        map.eras[byte / (map.granularity as int)] > since <==> exists|k: int|
            0 <= k < ranges.len() && (#[trigger] ranges[k]).offset <= byte && byte
                < ranges[k].offset + ranges[k].len,
        forall|k: int|
            0 <= k < ranges.len() ==> {
                let end = (#[trigger] ranges[k]).offset + ranges[k].len;
                &&& ranges[k].len > 0
                &&& ranges[k].offset as int % (map.granularity as int) == 0
                &&& end <= map.dev_size
                &&& end % (map.granularity as int) == 0 || end == map.dev_size
            },
        forall|j: int, k: int|
            0 <= j < k < ranges.len() ==> (#[trigger] ranges[j]).offset + ranges[j].len < (
            #[trigger] ranges[k]).offset,
{
    assert(covered(ranges, byte) <==> map.changed(since, byte));
    if covered(ranges, byte) {
        let k = choose|k: int| 0 <= k < ranges.len() && (#[trigger] ranges[k]).has(byte);
        assert(ranges[k].offset <= byte);
    }
    if exists|k: int|
        0 <= k < ranges.len() && (#[trigger] ranges[k]).offset <= byte && byte < ranges[k].offset
            + ranges[k].len {
        let k = choose|k: int|
            0 <= k < ranges.len() && (#[trigger] ranges[k]).offset <= byte && byte
                < ranges[k].offset + ranges[k].len;
        assert(ranges[k].has(byte));
    }
    assert forall|k: int| 0 <= k < ranges.len() implies {
        let end = (#[trigger] ranges[k]).offset + ranges[k].len;
        &&& ranges[k].len > 0
        &&& ranges[k].offset as int % (map.granularity as int) == 0
        &&& end <= map.dev_size
        &&& end % (map.granularity as int) == 0 || end == map.dev_size
    } by {
        assert(ranges[k].end() == ranges[k].offset + ranges[k].len);
    }
    assert forall|j: int, k: int| 0 <= j < k < ranges.len() implies (#[trigger] ranges[j]).offset
        + ranges[j].len < (#[trigger] ranges[k]).offset by {
        assert(ranges[j].end() < ranges[k].offset);
    }
}

/// After a write, a diff since an era before reports, beside what it reported
/// already, the bytes that share a chunk with the write, and no others.
pub proof fn a_write_adds_its_chunks_to_the_diff(
    map: EraMap,
    offset: u64,
    len: u64,
    since: u32,
    before: Seq<DirtyRange>,
    after: Seq<DirtyRange>,
    byte: int,
)
    requires
        map.wf(),
        since < map.current_era,
        is_diff(map, since, before),
        is_diff(map.marked(offset, len), since, after),
        0 <= byte < map.dev_size,
    ensures
        covered(after, byte) <==> covered(before, byte) || exists|x: int|
            offset <= x < offset + len && #[trigger] (x / (map.granularity as int)) == byte / (
            map.granularity as int),
{
    let g = map.granularity as int;
    let c = byte / g;
    crate::era::lemma_chunk_exists(map.dev_size, map.granularity, byte);
    touched_means_overlap(map, offset, len, c);
    assert(covered(after, byte) <==> map.marked(offset, len).changed(since, byte));
    assert(covered(before, byte) <==> map.changed(since, byte));
    if map.touched(offset, len, c) {
        let x = choose|x: int| offset <= x < offset + len && #[trigger] map.chunk_of(x) == c;
        assert(x / g == c);
    }
    if exists|x: int| offset <= x < offset + len && #[trigger] (x / g) == c {
        let x = choose|x: int| offset <= x < offset + len && #[trigger] (x / g) == c;
        assert(map.chunk_of(x) == c);
    }
}

/// Writes, checkpoints and the fallback change nothing about a map but its
/// eras and its current era.
pub proof fn a_history_keeps_its_identity(map: EraMap, offset: u64, len: u64)
    ensures
        map.marked(offset, len) == (EraMap { eras: map.marked(offset, len).eras, ..map }),
        map.marked(offset, len).eras.len() == map.eras.len(),
        map.all_dirty() == (EraMap { eras: map.all_dirty().eras, ..map }),
        map.all_dirty().eras.len() == map.eras.len(),
        map.current_era < u32::MAX ==> map.checkpointed() == (EraMap {
            current_era: (map.current_era + 1) as u32,
            ..map
        }),
        forall|i: int|
            0 <= i < map.eras.len() ==> (#[trigger] map.all_dirty().eras[i]) >= map.eras[i]
                && map.all_dirty().eras[i] >= map.current_era,
        forall|i: int|
            0 <= i < map.eras.len() ==> (#[trigger] map.all_dirty().eras[i]) == map.eras[i]
                || map.all_dirty().eras[i] == map.current_era,
{
}

/// A history that begins has written nothing, stands at era 1, and has a chunk
/// for every byte of the device and no more.
pub proof fn a_fresh_history_reports_nothing(
    dev_size: u64,
    granularity: u64,
    generation: u64,
    since: u32,
    ranges: Seq<DirtyRange>,
)
    requires
        crate::era::valid_granularity(granularity),
        is_diff(EraMap::fresh(dev_size, granularity, generation), since, ranges),
    ensures
        ranges.len() == 0,
        ({
            let map = EraMap::fresh(dev_size, granularity, generation);
            &&& map.wf()
            &&& map.current_era == 1
            &&& map.generation == generation
            &&& map.dev_size == dev_size
            &&& map.granularity == granularity
            &&& (map.eras.len() - 1) * granularity < dev_size <= map.eras.len() * granularity
        }),
{
    let map = EraMap::fresh(dev_size, granularity, generation);
    let g = granularity as int;
    let n = chunk_count(dev_size, granularity);
    crate::era::lemma_chunks_reach_end(dev_size, granularity);
    assert((n - 1) * g < dev_size) by (nonlinear_arith)
        requires
            g > 0,
            n == (dev_size + g - 1) / g,
            dev_size >= 0,
    ;
    if ranges.len() > 0 {
        let byte = ranges[0].offset as int;
        assert(ranges[0].has(byte));
        assert(covered(ranges, byte));
        crate::era::lemma_chunk_exists(dev_size, granularity, byte);
        assert(map.changed(since, byte));
    }
}

/// Chunks are powers of two of at least 4096 bytes; nothing else is accepted.
pub proof fn chunks_are_powers_of_two(k: nat, granularity: u64)
    ensures
        12 <= k < 64 ==> crate::era::valid_granularity(
            vstd::arithmetic::power2::pow2(k) as u64,
        ),
        granularity < 4096 ==> !crate::era::valid_granularity(granularity),
        granularity % 2 == 1 ==> !crate::era::valid_granularity(granularity),
        granularity >= 8192 ==> crate::era::valid_granularity(granularity) == (granularity % 2 == 0
            && crate::era::valid_granularity(granularity / 2)),
{
    vstd::arithmetic::power2::lemma2_to64();
    reveal(vstd::arithmetic::power2::is_pow2);
    if 12 <= k < 64 {
        lemma_pow2_is_pow2(k);
        vstd::arithmetic::power2::lemma2_to64_rest();
        vstd::arithmetic::power2::lemma_pow2_strictly_increases(k, 64);
        if k > 12 {
            vstd::arithmetic::power2::lemma_pow2_strictly_increases(12, k);
        }
    }
}

proof fn lemma_pow2_is_pow2(k: nat)
    ensures
        vstd::arithmetic::power2::is_pow2(vstd::arithmetic::power2::pow2(k) as int),
    decreases k,
{
    reveal(vstd::arithmetic::power2::is_pow2);
    vstd::arithmetic::power2::lemma2_to64();
    if k > 0 {
        lemma_pow2_is_pow2((k - 1) as nat);
        vstd::arithmetic::power2::lemma_pow2_unfold(k);
    }
}

/// The bytes of a diff add up range by range.
pub proof fn dirty_bytes_add_up(ranges: Seq<DirtyRange>, r: DirtyRange)
    ensures
        crate::era::total_len(Seq::empty()) == 0,
        crate::era::total_len(ranges.push(r)) == crate::era::total_len(ranges) + r.len,
{
    assert(ranges.push(r).drop_last() =~= ranges);
}

/// A chunk counts as written once it was, and only then.
pub proof fn written_chunks_add_up(map: EraMap, era: u32)
    ensures
        (EraMap { eras: map.eras.push(era), ..map }).written() == map.written() + if era > 0 {
            1int
        } else {
            0
        },
        (EraMap { eras: Seq::empty(), ..map }).written() == 0,
{
    reveal(Seq::filter);
    assert(map.eras.push(era).drop_last() =~= map.eras);
}

} // verus!
