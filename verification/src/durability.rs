//! What the disk model promises: writes are seen at once, a flush makes them
//! durable, and what a crash may take away.

use vstd::prelude::*;

use crate::cbt::overwritten;
use crate::model::{
    block, block_count, entry_bytes, layered, power_loss, tear, CrashMode, Disk, Entry,
};
use crate::rng::{advance, advance_by, draw, scramble, state_after_roll};

verus! {

/// Autonomous writeback changes nothing that a read can see.
pub proof fn writeback_is_invisible(disk: Disk)
    ensures
        disk.drained().visible() == disk.visible(),
        disk.drained().committed.len() == disk.committed.len(),
    decreases disk.volatile.len(),
{
    if disk.volatile.len() > 0 && entry_bytes(disk.volatile) > disk.cache_cap {
        let oldest = disk.volatile[0];
        let next = Disk {
            committed: overwritten(disk.committed, oldest.0 as int, oldest.1),
            volatile: disk.volatile.skip(1),
            stats: crate::model::Stats {
                autonomous_writebacks: (disk.stats.autonomous_writebacks + 1) as u64,
                ..disk.stats
            },
            ..disk
        };
        writeback_is_invisible(next);
        crate::model::lemma_layered_first(disk.committed, disk.volatile);
    }
}

/// The cache writes itself back oldest first: some of the oldest entries are
/// committed in their order, no more than needed, and the rest stay as they
/// are. So a crash loses only a recent window.
pub proof fn writeback_is_oldest_first(disk: Disk) -> (n: nat)
    ensures
        n <= disk.volatile.len(),
        disk.drained().committed == layered(disk.committed, disk.volatile.take(n as int)),
        disk.drained().volatile == disk.volatile.skip(n as int),
        n > 0 ==> entry_bytes(disk.volatile.skip(n - 1)) > disk.cache_cap,
        entry_bytes(disk.volatile) <= disk.cache_cap ==> n == 0,
        disk.stats.autonomous_writebacks + disk.volatile.len() <= u64::MAX ==> disk.drained()
            == (Disk {
            committed: disk.drained().committed,
            volatile: disk.drained().volatile,
            stats: crate::model::Stats {
                autonomous_writebacks: (disk.stats.autonomous_writebacks + n) as u64,
                ..disk.stats
            },
            ..disk
        }),
    decreases disk.volatile.len(),
{
    if disk.volatile.len() > 0 && entry_bytes(disk.volatile) > disk.cache_cap {
        let oldest = disk.volatile[0];
        let next = Disk {
            committed: overwritten(disk.committed, oldest.0 as int, oldest.1),
            volatile: disk.volatile.skip(1),
            stats: crate::model::Stats {
                autonomous_writebacks: (disk.stats.autonomous_writebacks + 1) as u64,
                ..disk.stats
            },
            ..disk
        };
        let m = writeback_is_oldest_first(next);
        let taken = disk.volatile.take(m as int + 1);
        crate::model::lemma_layered_first(disk.committed, taken);
        assert(taken.skip(1) =~= next.volatile.take(m as int));
        assert(next.volatile.skip(m as int) =~= disk.volatile.skip(m as int + 1));
        if m > 0 {
            assert(next.volatile.skip(m - 1) =~= disk.volatile.skip(m as int));
        } else {
            assert(disk.volatile.skip(0) =~= disk.volatile);
        }
        m + 1
    } else {
        assert(disk.volatile.take(0) =~= Seq::empty());
        assert(disk.volatile.skip(0) =~= disk.volatile);
        0
    }
}

/// Whatever enters the cache, it stays within its capacity.
pub proof fn cache_stays_within_capacity(disk: Disk, off: u64, data: Seq<u8>)
    ensures
        entry_bytes(disk.cached(off, data).volatile) <= disk.cache_cap,
{
    lemma_drained_fits(Disk { volatile: disk.volatile.push((off, data)), ..disk });
}

proof fn lemma_drained_fits(disk: Disk)
    ensures
        entry_bytes(disk.drained().volatile) <= disk.cache_cap,
    decreases disk.volatile.len(),
{
    if disk.volatile.len() > 0 && entry_bytes(disk.volatile) > disk.cache_cap {
        let oldest = disk.volatile[0];
        lemma_drained_fits(
            Disk {
                committed: overwritten(disk.committed, oldest.0 as int, oldest.1),
                volatile: disk.volatile.skip(1),
                stats: crate::model::Stats {
                    autonomous_writebacks: (disk.stats.autonomous_writebacks + 1) as u64,
                    ..disk.stats
                },
                ..disk
            },
        );
    }
}

proof fn lemma_cached_visible(disk: Disk, off: u64, data: Seq<u8>)
    ensures
        disk.cached(off, data).visible() == overwritten(disk.visible(), off as int, data),
{
    let pushed = Disk { volatile: disk.volatile.push((off, data)), ..disk };
    writeback_is_invisible(pushed);
    assert(pushed.volatile.drop_last() =~= disk.volatile);
}

/// Read-your-writes: a completed write is immediately visible, over everything
/// that was written before.
pub proof fn read_your_writes(disk: Disk, off: u64, data: Seq<u8>)
    requires
        !disk.write_errors(),
    ensures
        disk.written(off, data).visible() == overwritten(disk.visible(), off as int, data),
{
    let counted = Disk {
        rng: crate::rng::state_after_roll(disk.rng, disk.policy.error_pm),
        stats: crate::model::Stats { writes: (disk.stats.writes + 1) as u64, ..disk.stats },
        ..disk
    };
    lemma_cached_visible(counted, off, data);
}

/// A write that fails leaves a prefix of whole blocks, which may be empty.
pub proof fn errored_write_leaves_block_prefix(disk: Disk, off: u64, data: Seq<u8>)
    requires
        disk.wf(),
        disk.write_errors(),
    ensures
        ({
            let keep = disk.error_keeps(data.len() as int);
            &&& 0 <= keep <= data.len()
            &&& keep % (disk.lbs as int) == 0
            &&& disk.written(off, data).visible() == overwritten(
                disk.visible(),
                off as int,
                data.take(keep),
            )
        }),
{
    let len = data.len() as int;
    let l = disk.lbs as int;
    let blocks = len / l;
    let state = crate::rng::advance(
        crate::rng::state_after_roll(disk.rng, disk.policy.error_pm),
    );
    let picked = crate::rng::scramble(state) as int % (blocks + 1);
    let keep = disk.error_keeps(len);
    assert(blocks >= 0) by (nonlinear_arith)
        requires
            l > 0,
            len >= 0,
            blocks == len / l,
    ;
    assert(0 <= picked <= blocks) by (nonlinear_arith)
        requires
            blocks >= 0,
            picked == crate::rng::scramble(state) as int % (blocks + 1),
    ;
    assert(0 <= keep <= len && keep % l == 0) by (nonlinear_arith)
        requires
            l > 0,
            blocks == len / l,
            0 <= picked <= blocks,
            keep == picked * l,
    ;
    let counted = Disk {
        rng: crate::rng::state_after_roll(disk.rng, disk.policy.error_pm),
        stats: crate::model::Stats { writes: (disk.stats.writes + 1) as u64, ..disk.stats },
        ..disk
    };
    let failed = Disk {
        rng: crate::rng::advance(counted.rng),
        stats: crate::model::Stats {
            errors_injected: (disk.stats.errors_injected + 1) as u64,
            ..counted.stats
        },
        ..counted
    };
    if keep > 0 {
        lemma_cached_visible(failed, off, data.take(keep));
    } else {
        assert(overwritten(disk.visible(), off as int, data.take(keep)) =~= disk.visible());
    }
}

/// A discarded range reads as zeros.
pub proof fn discard_reads_zero(disk: Disk, off: u64, len: u64)
    ensures
        disk.discarded(off, len).visible() == overwritten(
            disk.visible(),
            off as int,
            Seq::new(len as nat, |i: int| 0u8),
        ),
{
    let counted = Disk {
        stats: crate::model::Stats { discards: (disk.stats.discards + 1) as u64, ..disk.stats },
        ..disk
    };
    lemma_cached_visible(counted, off, Seq::new(len as nat, |i: int| 0u8));
}

/// A flush, honest or not, changes nothing that a read can see.
pub proof fn flush_is_invisible(disk: Disk)
    ensures
        disk.flushed().visible() == disk.visible(),
{
}

/// What was written before an honest flush survives every crash.
pub proof fn honest_flush_is_durable(disk: Disk, mode: CrashMode)
    requires
        !disk.flush_lies(),
    ensures
        disk.flushed().crashed(mode).visible() == disk.visible(),
{
}

/// A flush that lies commits nothing: a crash takes what it takes without the
/// flush.
pub proof fn lying_flush_commits_nothing(disk: Disk)
    requires
        disk.flush_lies(),
    ensures
        disk.flushed().committed == disk.committed,
        disk.flushed().volatile == disk.volatile,
        disk.flushed().crashed(CrashMode::Drop).visible() == disk.committed,
{
    lemma_drop_keeps_base(disk.committed, disk.flushed().rng, disk.volatile, disk.lbs);
}

proof fn lemma_drop_keeps_base(base: Seq<u8>, rng: u64, entries: Seq<Entry>, lbs: u32)
    ensures
        power_loss(base, rng, entries, lbs, CrashMode::Drop).image == base,
        power_loss(base, rng, entries, lbs, CrashMode::Drop).rng == rng,
    decreases entries.len(),
{
    if entries.len() > 0 {
        lemma_drop_keeps_base(base, rng, entries.drop_last(), lbs);
    }
}

/// A crash that drops the cache reverts the disk to what was committed.
pub proof fn drop_crash_reverts_to_committed(disk: Disk)
    ensures
        disk.crashed(CrashMode::Drop).visible() == disk.committed,
{
    lemma_drop_keeps_base(disk.committed, disk.rng, disk.volatile, disk.lbs);
}

/// A discard that still sits in the cache is undone by such a crash.
pub proof fn unflushed_discard_can_be_undone(disk: Disk, off: u64, len: u64)
    requires
        entry_bytes(disk.volatile) + len <= disk.cache_cap,
    ensures
        disk.discarded(off, len).crashed(CrashMode::Drop).visible() == disk.committed,
{
    let zeros = Seq::new(len as nat, |i: int| 0u8);
    let pushed = disk.volatile.push((off, zeros));
    assert(pushed.drop_last() =~= disk.volatile);
    drop_crash_reverts_to_committed(disk.discarded(off, len));
}

/// Every volatile entry is accounted for in the report of a crash.
pub proof fn crash_report_counts_all_entries(disk: Disk, mode: CrashMode)
    requires
        disk.volatile.len() <= u64::MAX,
    ensures
        ({
            let r = disk.loss(mode).report;
            r.committed + r.dropped + r.torn == disk.volatile.len()
        }),
{
    lemma_report_counts(disk.committed, disk.rng, disk.volatile, disk.lbs, mode);
}

proof fn lemma_report_counts(
    base: Seq<u8>,
    rng: u64,
    entries: Seq<Entry>,
    lbs: u32,
    mode: CrashMode,
)
    requires
        entries.len() <= u64::MAX,
    ensures
        ({
            let r = power_loss(base, rng, entries, lbs, mode).report;
            r.committed + r.dropped + r.torn == entries.len()
        }),
    decreases entries.len(),
{
    if entries.len() > 0 {
        lemma_report_counts(base, rng, entries.drop_last(), lbs, mode);
    }
}

/// Logical block `b` of an image.
pub open spec fn block_at(image: Seq<u8>, lbs: u32, b: int) -> Seq<u8> {
    image.subrange(b * lbs, (b + 1) * lbs)
}

/// The entry covers whole blocks.
pub open spec fn is_aligned(entry: Entry, lbs: u32) -> bool {
    &&& entry.0 as int % lbs as int == 0
    &&& entry.1.len() as int % lbs as int == 0
}

/// The entry holds block `b`.
pub open spec fn holds_block(entry: Entry, lbs: u32, b: int) -> bool {
    entry.0 <= b * lbs && (b + 1) * lbs <= entry.0 + entry.1.len()
}

/// What the entry has for block `b`.
pub open spec fn entry_block(entry: Entry, lbs: u32, b: int) -> Seq<u8> {
    entry.1.subrange(b * lbs - entry.0, (b + 1) * lbs - entry.0)
}

/// `content` is the whole of block `b` as it was committed or as one of the
/// entries wrote it.
pub open spec fn is_version(
    base: Seq<u8>,
    entries: Seq<Entry>,
    lbs: u32,
    b: int,
    content: Seq<u8>,
) -> bool {
    content == block_at(base, lbs, b) || exists|k: int|
        0 <= k < entries.len() && holds_block(#[trigger] entries[k], lbs, b) && content
            == entry_block(entries[k], lbs, b)
}

proof fn lemma_scaled(a: int, b: int, l: int)
    requires
        a <= b,
        l > 0,
    ensures
        a * l <= b * l,
{
    assert(a * l <= b * l) by (nonlinear_arith)
        requires
            a <= b,
            l > 0,
    ;
}

/// An aligned write replaces a block as a whole or leaves it as it is.
proof fn lemma_overwrite_block(image: Seq<u8>, entry: Entry, lbs: u32, b: int)
    requires
        lbs > 0,
        is_aligned(entry, lbs),
        0 <= b,
        (b + 1) * lbs <= image.len(),
    ensures
        block_at(overwritten(image, entry.0 as int, entry.1), lbs, b) == if holds_block(
            entry,
            lbs,
            b,
        ) {
            entry_block(entry, lbs, b)
        } else {
            block_at(image, lbs, b)
        },
{
    let l = lbs as int;
    let off = entry.0 as int;
    let len = entry.1.len() as int;
    let after = overwritten(image, off, entry.1);
    assert(0 <= b * l <= (b + 1) * l) by (nonlinear_arith)
        requires
            l > 0,
            b >= 0,
    ;
    assert((b + 1) * l == b * l + l) by (nonlinear_arith);
    if holds_block(entry, lbs, b) {
        assert(block_at(after, lbs, b) =~= entry_block(entry, lbs, b));
    } else {
        let p = off / l;
        let q = len / l;
        assert(off == p * l && len == q * l) by (nonlinear_arith)
            requires
                l > 0,
                off % l == 0,
                len % l == 0,
                p == off / l,
                q == len / l,
        ;
        if b < p {
            lemma_scaled(b + 1, p, l);
        } else if b >= p + q {
            lemma_scaled(p + q, b, l);
            assert((p + q) * l == p * l + q * l) by (nonlinear_arith);
        } else {
            lemma_scaled(p, b, l);
            lemma_scaled(b + 1, p + q, l);
            assert((p + q) * l == p * l + q * l) by (nonlinear_arith);
        }
        assert(block_at(after, lbs, b) =~= block_at(image, lbs, b));
    }
}

proof fn lemma_tear_len(base: Seq<u8>, rng: u64, entry: Entry, lbs: u32, n: nat)
    ensures
        tear(base, rng, entry, lbs, n).0.len() == base.len(),
    decreases n,
{
    if n > 0 {
        lemma_tear_len(base, rng, entry, lbs, (n - 1) as nat);
    }
}

/// A torn entry replaces a block as a whole or leaves it as it is.
proof fn lemma_tear_block(base: Seq<u8>, rng: u64, entry: Entry, lbs: u32, n: nat, b: int)
    requires
        lbs > 0,
        is_aligned(entry, lbs),
        n <= block_count(entry.1.len() as int, lbs),
        entry.0 + entry.1.len() <= u64::MAX,
        0 <= b,
        (b + 1) * lbs <= base.len(),
    ensures
        ({
            let content = block_at(tear(base, rng, entry, lbs, n).0, lbs, b);
            content == block_at(base, lbs, b) || holds_block(entry, lbs, b) && content
                == entry_block(entry, lbs, b)
        }),
    decreases n,
{
    if n > 0 {
        lemma_tear_block(base, rng, entry, lbs, (n - 1) as nat, b);
        lemma_tear_len(base, rng, entry, lbs, (n - 1) as nat);
        let i = n - 1;
        let (image, state) = tear(base, rng, entry, lbs, (n - 1) as nat);
        if crate::rng::scramble(crate::rng::advance(state)) % 2 == 0 {
            let l = lbs as int;
            let len = entry.1.len() as int;
            let off = entry.0 as int;
            let p = off / l;
            let q = len / l;
            assert(off == p * l && len == q * l && q >= 0) by (nonlinear_arith)
                requires
                    l > 0,
                    off % l == 0,
                    len % l == 0,
                    len >= 0,
                    p == off / l,
                    q == len / l,
            ;
            assert((q * l + l - 1) / l == q) by (nonlinear_arith)
                requires
                    l > 0,
            ;
            lemma_scaled(0, i, l);
            lemma_scaled(i + 1, q, l);
            assert((i + 1) * l == i * l + l) by (nonlinear_arith);
            assert((p * l + i * l) % l == 0) by {
                assert(p * l + i * l == (p + i) * l) by (nonlinear_arith);
                assert(((p + i) * l) % l == 0) by (nonlinear_arith)
                    requires
                        l > 0,
                ;
            }
            assert(l % l == 0) by (nonlinear_arith)
                requires
                    l > 0,
            ;
            let piece: Entry = ((off + i * l) as u64, block(entry.1, lbs, i));
            assert(piece.1.len() == l);
            lemma_overwrite_block(image, piece, lbs, b);
            if holds_block(piece, lbs, b) {
                assert((b + 1) * l == b * l + l) by (nonlinear_arith);
                assert(entry_block(piece, lbs, b) =~= entry_block(entry, lbs, b));
            }
        }
    }
}

proof fn lemma_loss_versions(
    base: Seq<u8>,
    rng: u64,
    entries: Seq<Entry>,
    lbs: u32,
    mode: CrashMode,
    b: int,
)
    requires
        lbs > 0,
        forall|k: int|
            0 <= k < entries.len() ==> is_aligned(#[trigger] entries[k], lbs) && entries[k].0
                + entries[k].1.len() <= u64::MAX,
        0 <= b,
        (b + 1) * lbs <= base.len(),
    ensures
        power_loss(base, rng, entries, lbs, mode).image.len() == base.len(),
        is_version(
            base,
            entries,
            lbs,
            b,
            block_at(power_loss(base, rng, entries, lbs, mode).image, lbs, b),
        ),
    decreases entries.len(),
{
    if entries.len() > 0 {
        let before = entries.drop_last();
        assert forall|k: int| 0 <= k < before.len() implies is_aligned(#[trigger] before[k], lbs)
            && before[k].0 + before[k].1.len() <= u64::MAX by {
            assert(before[k] == entries[k]);
        }
        lemma_loss_versions(base, rng, before, lbs, mode, b);
        let so_far = power_loss(base, rng, before, lbs, mode);
        let top = entries.len() - 1;
        let entry = entries[top];
        let content = block_at(power_loss(base, rng, entries, lbs, mode).image, lbs, b);
        if mode is Seeded {
            let next = crate::rng::advance(so_far.rng);
            let n = block_count(entry.1.len() as int, lbs) as nat;
            lemma_overwrite_block(so_far.image, entry, lbs, b);
            let len = entry.1.len() as int;
            let l = lbs as int;
            assert(0 <= (len + l - 1) / l) by (nonlinear_arith)
                requires
                    l > 0,
                    len >= 0,
            ;
            lemma_tear_block(so_far.image, next, entry, lbs, n, b);
            lemma_tear_len(so_far.image, next, entry, lbs, n);
        }
        let old = block_at(so_far.image, lbs, b);
        if content == old {
            if old != block_at(base, lbs, b) {
                let k = choose|k: int|
                    0 <= k < before.len() && holds_block(#[trigger] before[k], lbs, b) && old
                        == entry_block(before[k], lbs, b);
                assert(entries[k] == before[k]);
            }
        } else {
            assert(holds_block(entries[top], lbs, b) && content == entry_block(
                entries[top],
                lbs,
                b,
            ));
        }
    }
}

/// A crash never tears inside a logical block: when all writes cover whole
/// blocks, each block afterwards is as it was committed or as one of the
/// cached writes left it.
pub proof fn crash_tears_on_block_boundaries(disk: Disk, mode: CrashMode, b: int)
    requires
        disk.wf(),
        forall|k: int|
            0 <= k < disk.volatile.len() ==> is_aligned(#[trigger] disk.volatile[k], disk.lbs),
        0 <= b,
        (b + 1) * disk.lbs <= disk.committed.len(),
    ensures
        is_version(
            disk.committed,
            disk.volatile,
            disk.lbs,
            b,
            block_at(disk.crashed(mode).visible(), disk.lbs, b),
        ),
{
    assert forall|k: int| 0 <= k < disk.volatile.len() implies is_aligned(
        #[trigger] disk.volatile[k],
        disk.lbs,
    ) && disk.volatile[k].0 + disk.volatile[k].1.len() <= u64::MAX by {
        assert(disk.in_range(disk.volatile[k].0 as int, disk.volatile[k].1.len() as int));
    }
    lemma_loss_versions(disk.committed, disk.rng, disk.volatile, disk.lbs, mode, b);
}

/// The first draws after these two seeds stand for different fates.
proof fn lemma_seeds_differ()
    ensures
        scramble(advance(42)) % 100 == 13,
        scramble(advance(43)) % 100 == 60,
{
    assert(advance(42) == 0x9E37_79B9_7F4A_7C3F);
    assert(0x9E37_79B9_7F4A_7C3Fu64 ^ (0x9E37_79B9_7F4A_7C3Fu64 >> 30) == 0x9E37_79BB_0797_9ADAu64) by (bit_vector);
    assert((0x9E37_79BB_0797_9ADAu64).wrapping_mul(0xBF58_476D_1CE4_E5B9) == 0xFDD2_02BA_DC3B_E98A);
    assert(0xFDD2_02BA_DC3B_E98Au64 ^ (0xFDD2_02BA_DC3B_E98Au64 >> 27) == 0xFDD2_02A5_667B_BED1u64) by (bit_vector);
    assert((0xFDD2_02A5_667B_BED1u64).wrapping_mul(0x94D0_49BB_1331_11EB) == 0xBDD7_3227_5445_0ADB);
    assert(0xBDD7_3227_5445_0ADBu64 ^ (0xBDD7_3227_5445_0ADBu64 >> 31) == 0xBDD7_3226_2FEB_6E95u64) by (bit_vector);
    assert(advance(43) == 0x9E37_79B9_7F4A_7C40);
    assert(0x9E37_79B9_7F4A_7C40u64 ^ (0x9E37_79B9_7F4A_7C40u64 >> 30) == 0x9E37_79BB_0797_9AA5u64) by (bit_vector);
    assert((0x9E37_79BB_0797_9AA5u64).wrapping_mul(0xBF58_476D_1CE4_E5B9) == 0x608B_3923_E0D8_5A3D);
    assert(0x608B_3923_E0D8_5A3Du64 ^ (0x608B_3923_E0D8_5A3Du64 >> 27) == 0x608B_392F_F1BF_7E41u64) by (bit_vector);
    assert((0x608B_392F_F1BF_7E41u64).wrapping_mul(0x94D0_49BB_1331_11EB) == 0xBA69_EC91_9F9C_36AB);
    assert(0xBA69_EC91_9F9C_36ABu64 ^ (0xBA69_EC91_9F9C_36ABu64 >> 31) == 0xBA69_EC90_EB4F_EF88u64) by (bit_vector);
}

/// A torn entry leaves the bytes outside it as they are.
proof fn lemma_tear_outside(base: Seq<u8>, rng: u64, entry: Entry, lbs: u32, n: nat, p: int)
    requires
        lbs > 0,
        n <= block_count(entry.1.len() as int, lbs),
        0 <= p < base.len(),
        !covers(entry, p),
    ensures
        tear(base, rng, entry, lbs, n).0[p] == base[p],
    decreases n,
{
    if n > 0 {
        let i = n - 1;
        lemma_tear_outside(base, rng, entry, lbs, i as nat, p);
        lemma_tear_len(base, rng, entry, lbs, i as nat);
        let len = entry.1.len() as int;
        let l = lbs as int;
        assert(0 <= i * l < len) by (nonlinear_arith)
            requires
                0 <= i,
                i + 1 <= (len + l - 1) / l,
                l > 0,
        ;
        assert((i + 1) * l == i * l + l) by (nonlinear_arith);
        assert(block(entry.1, lbs, i).len() <= len - i * l);
    }
}

/// With a byte that only the first entry holds, the fate of that entry
/// decides what the byte is.
proof fn lemma_first_fate(base: Seq<u8>, rng: u64, entries: Seq<Entry>, lbs: u32, p: int)
    requires
        lbs > 0,
        entries.len() > 0,
        0 <= p < base.len(),
        covers(entries[0], p),
        forall|k: int| 0 < k < entries.len() ==> !covers(#[trigger] entries[k], p),
    ensures
        power_loss(base, rng, entries, lbs, CrashMode::Seeded).image.len() == base.len(),
        scramble(advance(rng)) % 100 < 40 ==> power_loss(
            base,
            rng,
            entries,
            lbs,
            CrashMode::Seeded,
        ).image[p] == entries[0].1[p - entries[0].0],
        40 <= scramble(advance(rng)) % 100 < 70 ==> power_loss(
            base,
            rng,
            entries,
            lbs,
            CrashMode::Seeded,
        ).image[p] == base[p],
    decreases entries.len(),
{
    let before = entries.drop_last();
    let entry = entries.last();
    let so_far = power_loss(base, rng, before, lbs, CrashMode::Seeded);
    let next = advance(so_far.rng);
    let n = block_count(entry.1.len() as int, lbs) as nat;
    if entries.len() == 1 {
        assert(so_far == power_loss(base, rng, Seq::empty(), lbs, CrashMode::Seeded)) by {
            assert(before =~= Seq::empty());
        }
    } else {
        assert(before[0] == entries[0]);
        assert forall|k: int| 0 < k < before.len() implies !covers(#[trigger] before[k], p) by {
            assert(before[k] == entries[k]);
        }
        lemma_first_fate(base, rng, before, lbs, p);
        assert(!covers(entries[entries.len() - 1], p));
        let len = entry.1.len() as int;
        let l = lbs as int;
        assert(0 <= (len + l - 1) / l) by (nonlinear_arith)
            requires
                l > 0,
                len >= 0,
        ;
        lemma_tear_outside(so_far.image, next, entry, lbs, n, p);
    }
    lemma_tear_len(so_far.image, next, entry, lbs, n);
}

/// The entry holds byte `p` of the device.
pub open spec fn covers(entry: Entry, p: int) -> bool {
    entry.0 <= p < entry.0 + entry.1.len()
}

/// The same disk with another seed.
pub open spec fn reseeded(disk: Disk, seed: u64) -> Disk {
    Disk { rng: seed, ..disk }
}

/// With the same operations behind them, seeded crashes with different seeds
/// can leave different devices: wherever the oldest cached write alone changes
/// a byte, there are two seeds that do not agree on it. With 42 the write
/// survives, with 43 it is lost.
pub proof fn seeds_can_leave_different_devices(disk: Disk, p: int)
    requires
        disk.wf(),
        disk.volatile.len() > 0,
        covers(disk.volatile[0], p),
        disk.volatile[0].1[p - disk.volatile[0].0] != disk.committed[p],
        forall|k: int| 0 < k < disk.volatile.len() ==> !covers(#[trigger] disk.volatile[k], p),
    ensures
        exists|s: u64, t: u64|
            (#[trigger] reseeded(disk, s)).crashed(CrashMode::Seeded).visible() != (
            #[trigger] reseeded(disk, t)).crashed(CrashMode::Seeded).visible(),
        reseeded(disk, 42).crashed(CrashMode::Seeded).visible()[p] == disk.volatile[0].1[p
            - disk.volatile[0].0],
        reseeded(disk, 43).crashed(CrashMode::Seeded).visible()[p] == disk.committed[p],
{
    assert(disk.in_range(disk.volatile[0].0 as int, disk.volatile[0].1.len() as int));
    lemma_seeds_differ();
    lemma_first_fate(disk.committed, 42, disk.volatile, disk.lbs, p);
    lemma_first_fate(disk.committed, 43, disk.volatile, disk.lbs, p);
    assert(reseeded(disk, 42).crashed(CrashMode::Seeded).visible()[p] != reseeded(
        disk,
        43,
    ).crashed(CrashMode::Seeded).visible()[p]);
}

/// A read sees, byte by byte, the last cached write that holds the byte, and
/// what is committed where none does.
pub proof fn reads_see_the_last_write(disk: Disk, p: int)
    requires
        0 <= p < disk.committed.len(),
    ensures
        disk.visible().len() == disk.committed.len(),
        (forall|k: int| 0 <= k < disk.volatile.len() ==> !covers(#[trigger] disk.volatile[k], p))
            ==> disk.visible()[p] == disk.committed[p],
        forall|k: int|
            0 <= k < disk.volatile.len() && covers(#[trigger] disk.volatile[k], p) && (forall|j: int|
                k < j < disk.volatile.len() ==> !covers(#[trigger] disk.volatile[j], p))
                ==> disk.visible()[p] == disk.volatile[k].1[p - disk.volatile[k].0],
    decreases disk.volatile.len(),
{
    crate::model::lemma_layered_len(disk.committed, disk.volatile);
    if disk.volatile.len() > 0 {
        let before = Disk { volatile: disk.volatile.drop_last(), ..disk };
        let top = disk.volatile.len() - 1;
        reads_see_the_last_write(before, p);
        crate::model::lemma_layered_len(disk.committed, before.volatile);
        assert forall|k: int|
            0 <= k < disk.volatile.len() && covers(#[trigger] disk.volatile[k], p) && (forall|j: int|
                k < j < disk.volatile.len() ==> !covers(
                    #[trigger] disk.volatile[j],
                    p,
                )) implies disk.visible()[p] == disk.volatile[k].1[p - disk.volatile[k].0] by {
            if k < top {
                assert(before.volatile[k] == disk.volatile[k]);
                assert(!covers(disk.volatile[top], p));
                assert forall|j: int| k < j < before.volatile.len() implies !covers(
                    #[trigger] before.volatile[j],
                    p,
                ) by {
                    assert(before.volatile[j] == disk.volatile[j]);
                }
            }
        }
        if forall|k: int|
            0 <= k < disk.volatile.len() ==> !covers(#[trigger] disk.volatile[k], p) {
            assert(!covers(disk.volatile[top], p));
            assert forall|k: int| 0 <= k < before.volatile.len() implies !covers(
                #[trigger] before.volatile[k],
                p,
            ) by {
                assert(before.volatile[k] == disk.volatile[k]);
            }
        }
    }
}

/// The number of bytes in the cache is that of its writes, one by one.
pub proof fn cached_bytes_add_up(entries: Seq<Entry>, entry: Entry)
    ensures
        entry_bytes(Seq::empty()) == 0,
        entry_bytes(entries.push(entry)) == entry_bytes(entries) + entry.1.len(),
{
    assert(entries.push(entry).drop_last() =~= entries);
}

/// A torn write persists block by block: each byte within the first `n` blocks
/// is the write's exactly when the draw for its block is even, and every other
/// byte is as before. Each block takes one draw.
pub proof fn torn_writes_persist_by_block(
    base: Seq<u8>,
    rng: u64,
    entry: Entry,
    lbs: u32,
    n: nat,
    p: int,
)
    requires
        lbs > 0,
        n <= block_count(entry.1.len() as int, lbs),
        0 <= p < base.len(),
    ensures
        tear(base, rng, entry, lbs, n).0.len() == base.len(),
        tear(base, rng, entry, lbs, n).1 == advance_by(rng, n),
        tear(base, rng, entry, lbs, n).0[p] == if entry.0 <= p < entry.0 + entry.1.len() && (p
            - entry.0) / (lbs as int) < n && draw(rng, ((p - entry.0) / (lbs as int)) as nat) % 2
            == 0 {
            entry.1[p - entry.0]
        } else {
            base[p]
        },
    decreases n,
{
    if n > 0 {
        let i = n - 1;
        torn_writes_persist_by_block(base, rng, entry, lbs, i as nat, p);
        let len = entry.1.len() as int;
        let l = lbs as int;
        assert(0 <= i * l < len) by (nonlinear_arith)
            requires
                0 <= i,
                i + 1 <= (len + l - 1) / l,
                l > 0,
        ;
        assert((i + 1) * l == i * l + l) by (nonlinear_arith);
        let piece = block(entry.1, lbs, i);
        let x = p - entry.0;
        if 0 <= x < len {
            assert(x / l == i <==> i * l <= x < i * l + l) by (nonlinear_arith)
                requires
                    l > 0,
                    0 <= x,
            ;
            assert(x / l < n <==> x / l < i || x / l == i);
            assert(0 <= x / l) by (nonlinear_arith)
                requires
                    l > 0,
                    0 <= x,
            ;
            if x / l == i {
                assert(piece[x - i * l] == entry.1[x]);
            }
        }
        assert(piece.len() <= len - i * l);
        assert(piece.len() <= l);
    }
}

/// How many blocks a write has: as many as hold its bytes, the last one
/// perhaps in part.
pub proof fn blocks_hold_the_bytes(len: int, lbs: u32, x: int)
    requires
        lbs > 0,
        0 <= x,
        0 <= len,
    ensures
        x / (lbs as int) < block_count(len, lbs) <==> x < (len + lbs - 1) / (lbs as int) * lbs,
        x < len ==> x / (lbs as int) < block_count(len, lbs),
        0 <= block_count(len, lbs),
        (block_count(len, lbs) - 1) * lbs < len,
        len <= block_count(len, lbs) * lbs,
{
    let l = lbs as int;
    let n = block_count(len, lbs);
    assert((x / l < n <==> x < n * l) && (x < len ==> x / l < n) && 0 <= n && (n - 1) * l < len
        && len <= n * l) by (nonlinear_arith)
        requires
            l > 0,
            0 <= x,
            0 <= len,
            n == (len + l - 1) / l,
    ;
}

/// What a seeded power loss does to the last cached write, given what it did
/// to those before. Of a hundred fates, forty keep the write, thirty lose it,
/// and thirty tear it: then each of its blocks persists on an even draw. The
/// report counts which it was, and every decision takes one draw.
pub proof fn a_power_loss_decides_each_write(
    base: Seq<u8>,
    rng: u64,
    entries: Seq<Entry>,
    entry: Entry,
    lbs: u32,
    p: int,
)
    requires
        lbs > 0,
        0 <= p < base.len(),
        entries.len() < u64::MAX,
    ensures
        ({
            let before = power_loss(base, rng, entries, lbs, CrashMode::Seeded);
            let after = power_loss(base, rng, entries.push(entry), lbs, CrashMode::Seeded);
            let fate = draw(before.rng, 0) % 100;
            let x = p - entry.0;
            let inside = 0 <= x < entry.1.len();
            let even = draw(before.rng, (1 + x / (lbs as int)) as nat) % 2 == 0;
            &&& after.image.len() == base.len()
            &&& after.image[p] == if inside && (fate < 40 || fate >= 70 && even) {
                entry.1[x]
            } else {
                before.image[p]
            }
            &&& after.rng == advance_by(
                before.rng,
                if fate < 70 {
                    1
                } else {
                    (1 + (entry.1.len() + lbs - 1) / (lbs as int)) as nat
                },
            )
            &&& after.report.committed == before.report.committed + if fate < 40 {
                1int
            } else {
                0
            }
            &&& after.report.dropped == before.report.dropped + if 40 <= fate < 70 {
                1int
            } else {
                0
            }
            &&& after.report.torn == before.report.torn + if fate >= 70 {
                1int
            } else {
                0
            }
        }),
        power_loss(base, rng, Seq::empty(), lbs, CrashMode::Seeded).image == base,
        power_loss(base, rng, Seq::empty(), lbs, CrashMode::Seeded).rng == rng,
{
    let all = entries.push(entry);
    assert(all.drop_last() =~= entries);
    assert(all.last() == entry);
    let before = power_loss(base, rng, entries, lbs, CrashMode::Seeded);
    lemma_report_counts(base, rng, entries, lbs, CrashMode::Seeded);
    lemma_loss_len(base, rng, entries, lbs);
    let next = advance(before.rng);
    let count = block_count(entry.1.len() as int, lbs);
    let n = count as nat;
    let x = p - entry.0;
    let l = lbs as int;
    reveal_with_fuel(advance_by, 2);
    assert(advance_by(before.rng, 1) == next);
    blocks_hold_the_bytes(entry.1.len() as int, lbs, if x < 0 { 0 } else { x });
    torn_writes_persist_by_block(before.image, next, entry, lbs, n, p);
    lemma_advance_after_one(before.rng, n);
    if 0 <= x < entry.1.len() {
        assert(0 <= x / l) by (nonlinear_arith)
            requires
                l > 0,
                0 <= x,
        ;
        lemma_advance_after_one(before.rng, (x / l + 1) as nat);
    }
}

proof fn lemma_advance_after_one(state: u64, n: nat)
    ensures
        advance_by(advance(state), n) == advance_by(state, n + 1),
    decreases n,
{
    if n > 0 {
        lemma_advance_after_one(state, (n - 1) as nat);
    } else {
        reveal_with_fuel(advance_by, 2);
    }
}

proof fn lemma_loss_len(base: Seq<u8>, rng: u64, entries: Seq<Entry>, lbs: u32)
    ensures
        power_loss(base, rng, entries, lbs, CrashMode::Seeded).image.len() == base.len(),
    decreases entries.len(),
{
    if entries.len() > 0 {
        lemma_loss_len(base, rng, entries.drop_last(), lbs);
        let so_far = power_loss(base, rng, entries.drop_last(), lbs, CrashMode::Seeded);
        lemma_tear_len(
            so_far.image,
            advance(so_far.rng),
            entries.last(),
            lbs,
            block_count(entries.last().1.len() as int, lbs) as nat,
        );
    }
}

/// There are seeds with which a write of two blocks survives a seeded crash in
/// its first block and not in its second, whatever stood there before.
pub proof fn writes_can_be_torn(disk: Disk, off: u64, data: Seq<u8>, p: int, q: int)
    requires
        disk.lbs > 0,
        data.len() == 2 * disk.lbs,
        off + data.len() <= disk.committed.len(),
        disk.volatile == seq![(off, data)],
        off <= p < off + disk.lbs <= q < off + data.len(),
    ensures
        exists|s: u64|
            {
                let left = (#[trigger] reseeded(disk, s)).crashed(CrashMode::Seeded).visible();
                left[p] == data[p - off] && left[q] == disk.committed[q]
            },
{
    lemma_tearing_seed();
    let one = Seq::<Entry>::empty();
    assert(disk.volatile =~= one.push((off, data)));
    a_power_loss_decides_each_write(disk.committed, 4, one, (off, data), disk.lbs, p);
    a_power_loss_decides_each_write(disk.committed, 4, one, (off, data), disk.lbs, q);
    let l = disk.lbs as int;
    assert((p - off) / l == 0 && (q - off) / l == 1) by (nonlinear_arith)
        requires
            l > 0,
            0 <= p - off < l <= q - off < 2 * l,
    ;
    let left = reseeded(disk, 4).crashed(CrashMode::Seeded).visible();
    assert(left[p] == data[p - off] && left[q] == disk.committed[q]);
}
/// With this seed a write is torn: its first block persists, its second not.
proof fn lemma_tearing_seed()
    ensures
        draw(4, 0) % 100 >= 70,
        draw(4, 1) % 2 == 0,
        draw(4, 2) % 2 == 1,
{
    reveal_with_fuel(advance_by, 4);
    assert(advance(0x0000_0000_0000_0004) == 0x9E37_79B9_7F4A_7C19);
    assert(0x9E37_79B9_7F4A_7C19u64 ^ (0x9E37_79B9_7F4A_7C19u64 >> 30) == 0x9E37_79BB_0797_9AFCu64) by (bit_vector);
    assert((0x9E37_79BB_0797_9AFCu64).wrapping_mul(0xBF58_476D_1CE4_E5B9) == 0x678B_7F38_B2A2_6C1C);
    assert(0x678B_7F38_B2A2_6C1Cu64 ^ (0x678B_7F38_B2A2_6C1Cu64 >> 27) == 0x678B_7F34_43CD_8B0Au64) by (bit_vector);
    assert((0x678B_7F34_43CD_8B0Au64).wrapping_mul(0x94D0_49BB_1331_11EB) == 0x6E73_E372_3ED4_4C2E);
    assert(0x6E73_E372_3ED4_4C2Eu64 ^ (0x6E73_E372_3ED4_4C2Eu64 >> 31) == 0x6E73_E372_E233_8ACAu64) by (bit_vector);
    assert(advance(0x9E37_79B9_7F4A_7C19) == 0x3C6E_F372_FE94_F82E);
    assert(0x3C6E_F372_FE94_F82Eu64 ^ (0x3C6E_F372_FE94_F82Eu64 >> 30) == 0x3C6E_F372_0F2F_35E5u64) by (bit_vector);
    assert((0x3C6E_F372_0F2F_35E5u64).wrapping_mul(0xBF58_476D_1CE4_E5B9) == 0x27F6_1A74_4047_CB7D);
    assert(0x27F6_1A74_4047_CB7Du64 ^ (0x27F6_1A74_4047_CB7Du64 >> 27) == 0x27F6_1A70_BE84_85F5u64) by (bit_vector);
    assert((0x27F6_1A70_BE84_85F5u64).wrapping_mul(0x94D0_49BB_1331_11EB) == 0xE474_C66B_8371_3CE7);
    assert(0xE474_C66B_8371_3CE7u64 ^ (0xE474_C66B_8371_3CE7u64 >> 31) == 0xE474_C66A_4B98_B030u64) by (bit_vector);
    assert(advance(0x3C6E_F372_FE94_F82E) == 0xDAA6_6D2C_7DDF_7443);
    assert(0xDAA6_6D2C_7DDF_7443u64 ^ (0xDAA6_6D2C_7DDF_7443u64 >> 30) == 0xDAA6_6D2F_1746_C0F2u64) by (bit_vector);
    assert((0xDAA6_6D2F_1746_C0F2u64).wrapping_mul(0xBF58_476D_1CE4_E5B9) == 0xB03F_C402_6C41_E8E2);
    assert(0xB03F_C402_6C41_E8E2u64 ^ (0xB03F_C402_6C41_E8E2u64 >> 27) == 0xB03F_C414_6BB9_68AFu64) by (bit_vector);
    assert((0xB03F_C414_6BB9_68AFu64).wrapping_mul(0x94D0_49BB_1331_11EB) == 0xDBEF_19FD_39A5_B7A5);
    assert(0xDBEF_19FD_39A5_B7A5u64 ^ (0xDBEF_19FD_39A5_B7A5u64 >> 31) == 0xDBEF_19FC_8E7B_845Fu64) by (bit_vector);
}

/// A crash that drops the cache takes no draw and counts every cached write as
/// dropped; a crash of either kind empties the cache and counts once.
pub proof fn crashes_empty_the_cache(disk: Disk, mode: CrashMode)
    requires
        disk.stats.crashes < u64::MAX,
    ensures
        disk.crashed(mode).volatile.len() == 0,
        disk.crashed(mode).visible() == disk.crashed(mode).committed,
        disk.crashed(mode).stats.crashes == disk.stats.crashes + 1,
        disk.crashed(mode).policy == disk.policy,
        disk.crashed(mode).lbs == disk.lbs,
        disk.crashed(mode).cache_cap == disk.cache_cap,
        disk.crashed(CrashMode::Drop).rng == disk.rng,
        disk.crashed(CrashMode::Drop).committed == disk.committed,
        disk.loss(mode) == power_loss(disk.committed, disk.rng, disk.volatile, disk.lbs, mode),
        disk.crashed(mode).committed == disk.loss(mode).image,
        disk.crashed(mode).rng == disk.loss(mode).rng,
        disk.crashed(mode).stats == (crate::model::Stats {
            crashes: (disk.stats.crashes + 1) as u64,
            ..disk.stats
        }),
        disk.volatile.len() <= u64::MAX ==> disk.loss(CrashMode::Drop).report.dropped
            == disk.volatile.len(),
{
    lemma_drop_keeps_base(disk.committed, disk.rng, disk.volatile, disk.lbs);
    if disk.volatile.len() <= u64::MAX {
        lemma_all_dropped(disk.committed, disk.rng, disk.volatile, disk.lbs);
    }
}

proof fn lemma_all_dropped(base: Seq<u8>, rng: u64, entries: Seq<Entry>, lbs: u32)
    requires
        entries.len() <= u64::MAX,
    ensures
        power_loss(base, rng, entries, lbs, CrashMode::Drop).report.dropped == entries.len(),
    decreases entries.len(),
{
    if entries.len() > 0 {
        lemma_all_dropped(base, rng, entries.drop_last(), lbs);
    }
}

/// A write fails exactly when the draw for it falls below the probability, and
/// then keeps as many of its blocks as the next draw says, all of them being
/// as likely as none.
pub proof fn injected_errors_follow_the_draws(disk: Disk, off: u64, data: Seq<u8>, p: int)
    requires
        disk.wf(),
        disk.policy.error_pm > 0,
        off + data.len() <= disk.committed.len(),
        off <= p < off + data.len(),
    ensures
        ({
            let fails = draw(disk.rng, 0) % 1000 < disk.policy.error_pm;
            let kept = draw(disk.rng, 1) as int % (data.len() as int / (disk.lbs as int) + 1);
            let after = disk.written(off, data);
            &&& disk.write_errors() <==> fails
            &&& after.rng == advance_by(
                disk.rng,
                if fails {
                    2
                } else {
                    1
                },
            )
            &&& after.visible()[p] == if !fails || p - off < kept * disk.lbs {
                data[p - off]
            } else {
                disk.visible()[p]
            }
        }),
{
    reveal_with_fuel(advance_by, 3);
    crate::model::lemma_layered_len(disk.committed, disk.volatile);
    lemma_written_rng(disk, off, data);
    if disk.write_errors() {
        errored_write_leaves_block_prefix(disk, off, data);
        assert(draw(disk.rng, 1) == scramble(advance(advance(disk.rng))));
    } else {
        read_your_writes(disk, off, data);
    }
}

proof fn lemma_drained_keeps(disk: Disk)
    ensures
        disk.drained().rng == disk.rng,
        disk.drained().policy == disk.policy,
        disk.drained().lbs == disk.lbs,
        disk.drained().cache_cap == disk.cache_cap,
        disk.drained().stats == (crate::model::Stats {
            autonomous_writebacks: disk.drained().stats.autonomous_writebacks,
            ..disk.stats
        }),
    decreases disk.volatile.len(),
{
    if disk.volatile.len() > 0 && entry_bytes(disk.volatile) > disk.cache_cap {
        let oldest = disk.volatile[0];
        lemma_drained_keeps(
            Disk {
                committed: overwritten(disk.committed, oldest.0 as int, oldest.1),
                volatile: disk.volatile.skip(1),
                stats: crate::model::Stats {
                    autonomous_writebacks: (disk.stats.autonomous_writebacks + 1) as u64,
                    ..disk.stats
                },
                ..disk
            },
        );
    }
}

proof fn lemma_written_rng(disk: Disk, off: u64, data: Seq<u8>)
    ensures
        disk.written(off, data).rng == if disk.write_errors() {
            advance(state_after_roll(disk.rng, disk.policy.error_pm))
        } else {
            state_after_roll(disk.rng, disk.policy.error_pm)
        },
{
    let counted = Disk {
        rng: state_after_roll(disk.rng, disk.policy.error_pm),
        stats: crate::model::Stats { writes: (disk.stats.writes + 1) as u64, ..disk.stats },
        ..disk
    };
    let failed = Disk {
        rng: advance(counted.rng),
        stats: crate::model::Stats {
            errors_injected: (disk.stats.errors_injected + 1) as u64,
            ..counted.stats
        },
        ..counted
    };
    let keep = disk.error_keeps(data.len() as int);
    lemma_drained_keeps(Disk { volatile: counted.volatile.push((off, data)), ..counted });
    lemma_drained_keeps(
        Disk { volatile: failed.volatile.push((off, data.take(keep))), ..failed },
    );
}

/// Every operation counts itself once, and what it did besides; nothing but a
/// crash or a decision by chance moves the generator, and none touches the
/// policy or the geometry.
pub proof fn operations_are_counted(disk: Disk, off: u64, data: Seq<u8>, len: u64)
    requires
        disk.has_room(),
    ensures
        ({
            let after = disk.written(off, data);
            &&& after.stats.writes == disk.stats.writes + 1
            &&& after.stats.errors_injected == disk.stats.errors_injected
                + if disk.write_errors() {
                1int
            } else {
                0
            }
            &&& after.stats.flushes == disk.stats.flushes
            &&& after.stats.discards == disk.stats.discards
            &&& after.stats.reads == disk.stats.reads
            &&& after.policy == disk.policy && after.lbs == disk.lbs
            &&& after.cache_cap == disk.cache_cap
            &&& disk.policy.error_pm == 0 ==> after.rng == disk.rng && !disk.write_errors()
        }),
        ({
            let after = disk.discarded(off, len);
            &&& after.stats.discards == disk.stats.discards + 1
            &&& after.stats.writes == disk.stats.writes
            &&& after.stats.flushes == disk.stats.flushes
            &&& after.rng == disk.rng
            &&& after.policy == disk.policy && after.lbs == disk.lbs
            &&& after.cache_cap == disk.cache_cap
        }),
        ({
            let after = disk.flushed();
            &&& after.stats.flushes == disk.stats.flushes + 1
            &&& after.stats.flush_lies == disk.stats.flush_lies + if disk.flush_lies() {
                1int
            } else {
                0
            }
            &&& after.stats.writes == disk.stats.writes
            &&& after.policy == disk.policy && after.lbs == disk.lbs
            &&& after.cache_cap == disk.cache_cap
            &&& disk.policy.flush_lie_pm == 0 ==> after.rng == disk.rng && !disk.flush_lies()
        }),
{
    let counted = Disk {
        rng: state_after_roll(disk.rng, disk.policy.error_pm),
        stats: crate::model::Stats { writes: (disk.stats.writes + 1) as u64, ..disk.stats },
        ..disk
    };
    let failed = Disk {
        rng: advance(counted.rng),
        stats: crate::model::Stats {
            errors_injected: (disk.stats.errors_injected + 1) as u64,
            ..counted.stats
        },
        ..counted
    };
    let keep = disk.error_keeps(data.len() as int);
    lemma_drained_keeps(Disk { volatile: counted.volatile.push((off, data)), ..counted });
    lemma_drained_keeps(
        Disk { volatile: failed.volatile.push((off, data.take(keep))), ..failed },
    );
    let zeros = Seq::new(len as nat, |i: int| 0u8);
    lemma_drained_keeps(
        Disk {
            stats: crate::model::Stats {
                discards: (disk.stats.discards + 1) as u64,
                ..disk.stats
            },
            volatile: disk.volatile.push((off, zeros)),
            ..disk
        },
    );
}

/// A flush lies exactly when the draw for it falls below the probability. An
/// honest one commits everything that a read can see and empties the cache; a
/// lie leaves both as they are.
pub proof fn flushes_follow_the_draws(disk: Disk)
    ensures
        ({
            let lies = disk.policy.flush_lie_pm > 0 && draw(disk.rng, 0) % 1000
                < disk.policy.flush_lie_pm;
            let after = disk.flushed();
            &&& disk.flush_lies() <==> lies
            &&& !lies ==> after.committed == disk.visible() && after.volatile.len() == 0
            &&& lies ==> after.committed == disk.committed && after.volatile == disk.volatile
            &&& after.rng == if disk.policy.flush_lie_pm > 0 {
                advance(disk.rng)
            } else {
                disk.rng
            }
        }),
{
    reveal_with_fuel(advance_by, 2);
}

/// A write or discard that the cache has room for is not committed yet: it
/// waits behind the others.
pub proof fn what_fits_the_cache_stays_there(disk: Disk, off: u64, data: Seq<u8>)
    requires
        entry_bytes(disk.volatile) + data.len() <= disk.cache_cap,
    ensures
        disk.cached(off, data).volatile == disk.volatile.push((off, data)),
        disk.cached(off, data).committed == disk.committed,
{
    cached_bytes_add_up(disk.volatile, (off, data));
}

/// A write that the cache has room for is not durable before a flush, whatever
/// its length and whether it fails: a crash that drops the cache undoes it.
pub proof fn unflushed_writes_can_be_lost(disk: Disk, off: u64, data: Seq<u8>)
    requires
        disk.wf(),
        entry_bytes(disk.volatile) + data.len() <= disk.cache_cap,
    ensures
        disk.written(off, data).committed == disk.committed,
        disk.written(off, data).crashed(CrashMode::Drop).visible() == disk.committed,
        !disk.write_errors() ==> disk.written(off, data).volatile == disk.volatile.push(
            (off, data),
        ),
        disk.write_errors() ==> {
            let keep = disk.error_keeps(data.len() as int);
            disk.written(off, data).volatile == if keep > 0 {
                disk.volatile.push((off, data.take(keep)))
            } else {
                disk.volatile
            }
        },
{
    let counted = Disk {
        rng: state_after_roll(disk.rng, disk.policy.error_pm),
        stats: crate::model::Stats { writes: (disk.stats.writes + 1) as u64, ..disk.stats },
        ..disk
    };
    let failed = Disk {
        rng: advance(counted.rng),
        stats: crate::model::Stats {
            errors_injected: (disk.stats.errors_injected + 1) as u64,
            ..counted.stats
        },
        ..counted
    };
    let keep = disk.error_keeps(data.len() as int);
    what_fits_the_cache_stays_there(counted, off, data);
    if disk.write_errors() {
        errored_write_leaves_block_prefix(disk, off, data);
        what_fits_the_cache_stays_there(failed, off, data.take(keep));
    }
    drop_crash_reverts_to_committed(disk.written(off, data));
}

/// A discard that the cache has room for waits there like a write of zeros.
pub proof fn unflushed_discards_wait_in_the_cache(disk: Disk, off: u64, len: u64)
    requires
        entry_bytes(disk.volatile) + len <= disk.cache_cap,
    ensures
        disk.discarded(off, len).committed == disk.committed,
        disk.discarded(off, len).volatile.len() == disk.volatile.len() + 1,
        disk.discarded(off, len).volatile.drop_last() == disk.volatile,
        ({
            let entry = disk.discarded(off, len).volatile.last();
            &&& entry.0 == off
            &&& entry.1.len() == len
            &&& forall|i: int| 0 <= i < len ==> (#[trigger] entry.1[i]) == 0
        }),
{
    let zeros = Seq::new(len as nat, |i: int| 0u8);
    let counted = Disk {
        stats: crate::model::Stats { discards: (disk.stats.discards + 1) as u64, ..disk.stats },
        ..disk
    };
    what_fits_the_cache_stays_there(counted, off, zeros);
    assert(disk.volatile.push((off, zeros)).drop_last() =~= disk.volatile);
}

} // verus!
