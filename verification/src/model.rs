//! The storage contract model: an in-memory "disk" with an explicit
//! committed / volatile-cache split (in-flight requests live in the device
//! layer, which parks them before they ever reach the model).
//!
//! Semantics, chosen so that normal operation is contract-perfect and all
//! weirdness is legal volatile-cache behavior revealed only by `crash`:
//!
//! * a completed write is immediately visible to reads (committed overlaid
//!   with the volatile entries in arrival order): read-your-writes holds;
//! * `flush` moves the whole volatile cache into committed (unless the
//!   flush-lie fault acks without doing anything);
//! * the volatile cache writes itself back oldest-first past a capacity
//!   limit, like a real disk cache, so a crash never loses "everything
//!   since boot", only the recent window;
//! * `crash` (power loss) applies a seed-chosen subset of the volatile
//!   entries to committed and discards the rest. Dropping entry N while
//!   keeping entry N+1 models persistence reordering; keeping only some
//!   logical blocks of an entry models a torn write;
//! * an errored write may still leave a partial entry in the cache (a failed
//!   write can change the medium).

use vstd::prelude::*;

use crate::cbt::overwritten;
use crate::rng::{advance, roll, scramble, state_after_roll, Rng};
use crate::sys::{eio, eio_code};

verus! {

/// Fault policy, adjustable at runtime. All probabilities are per-mill.
#[derive(Clone, Copy, Debug, PartialEq, Eq, Structural)]
pub struct Policy {
    /// WRITE requests that fail with EIO (possibly leaving a partial entry)
    pub error_pm: u32,
    /// FLUSH requests that are acked without committing anything
    pub flush_lie_pm: u32,
    /// requests parked without completion: the submitter sits in D state
    /// until a thaw (handled in the device layer, recorded here for status)
    pub hang_pm: u32,
}

impl Default for Policy {
    fn default() -> (policy: Self)
        ensures
            policy == (Policy { error_pm: 0, flush_lie_pm: 0, hang_pm: 0 }),
    {
        Policy { error_pm: 0, flush_lie_pm: 0, hang_pm: 0 }
    }
}

#[derive(Clone, Copy, Debug, PartialEq, Eq, Structural)]
pub struct Stats {
    pub reads: u64,
    pub writes: u64,
    pub flushes: u64,
    pub discards: u64,
    pub errors_injected: u64,
    pub flush_lies: u64,
    pub hangs: u64,
    pub crashes: u64,
    pub autonomous_writebacks: u64,
}

impl Stats {
    pub open spec fn zero() -> Stats {
        Stats {
            reads: 0,
            writes: 0,
            flushes: 0,
            discards: 0,
            errors_injected: 0,
            flush_lies: 0,
            hangs: 0,
            crashes: 0,
            autonomous_writebacks: 0,
        }
    }
}

impl Default for Stats {
    fn default() -> (stats: Self)
        ensures
            stats == Stats::zero(),
    {
        Stats {
            reads: 0,
            writes: 0,
            flushes: 0,
            discards: 0,
            errors_injected: 0,
            flush_lies: 0,
            hangs: 0,
            crashes: 0,
            autonomous_writebacks: 0,
        }
    }
}

/// What became of the volatile entries in a crash.
#[derive(Clone, Copy, Debug, PartialEq, Eq, Structural)]
pub struct CrashReport {
    pub committed: u64,
    pub dropped: u64,
    pub torn: u64,
}

#[derive(Clone, Copy, Debug, PartialEq, Eq, Structural)]
pub enum CrashMode {
    /// drop the whole volatile cache (maximum legal loss)
    Drop,
    /// per entry: commit fully / drop / tear, decided by the seed
    Seeded,
}

/// A write in the volatile cache: where it goes and what it holds.
pub type Entry = (u64, Seq<u8>);

/// What a disk holds.
#[verifier::ext_equal]
pub struct Disk {
    pub lbs: u32,
    pub cache_cap: u64,
    pub committed: Seq<u8>,
    pub volatile: Seq<Entry>,
    /// the state of the generator
    pub rng: u64,
    pub policy: Policy,
    pub stats: Stats,
}

/// The image after `entries` went onto `base` in order.
pub open spec fn layered(base: Seq<u8>, entries: Seq<Entry>) -> Seq<u8>
    decreases entries.len(),
{
    if entries.len() == 0 {
        base
    } else {
        let last = entries.last();
        overwritten(layered(base, entries.drop_last()), last.0 as int, last.1)
    }
}

/// The number of bytes in `entries`.
pub open spec fn entry_bytes(entries: Seq<Entry>) -> nat
    decreases entries.len(),
{
    if entries.len() == 0 {
        0
    } else {
        entry_bytes(entries.drop_last()) + entries.last().1.len()
    }
}

/// Block `i` of `data`; the last one may be short.
pub open spec fn block(data: Seq<u8>, lbs: u32, i: int) -> Seq<u8> {
    let end = (i + 1) * lbs;
    data.subrange(
        i * lbs,
        if end < data.len() {
            end
        } else {
            data.len() as int
        },
    )
}

/// How many blocks `data` has.
pub open spec fn block_count(len: int, lbs: u32) -> int {
    (len + lbs - 1) / (lbs as int)
}

/// The image and the generator after the first `n` blocks of a torn entry:
/// each block independently persists on an even draw.
pub open spec fn tear(base: Seq<u8>, rng: u64, entry: Entry, lbs: u32, n: nat) -> (Seq<u8>, u64)
    decreases n,
{
    if n == 0 {
        (base, rng)
    } else {
        let i = n - 1;
        let (image, state) = tear(base, rng, entry, lbs, (n - 1) as nat);
        let next = advance(state);
        if scramble(next) % 2 == 0 {
            (overwritten(image, entry.0 + i * lbs, block(entry.1, lbs, i)), next)
        } else {
            (image, next)
        }
    }
}

/// What a power loss leaves.
pub struct Outcome {
    pub image: Seq<u8>,
    pub rng: u64,
    pub report: CrashReport,
}

/// What a power loss leaves of `base` and the volatile `entries`.
pub open spec fn power_loss(
    base: Seq<u8>,
    rng: u64,
    entries: Seq<Entry>,
    lbs: u32,
    mode: CrashMode,
) -> Outcome
    decreases entries.len(),
{
    if entries.len() == 0 {
        Outcome { image: base, rng, report: CrashReport { committed: 0, dropped: 0, torn: 0 } }
    } else {
        let so_far = power_loss(base, rng, entries.drop_last(), lbs, mode);
        let entry = entries.last();
        let r = so_far.report;
        match mode {
            CrashMode::Drop => Outcome {
                report: CrashReport { dropped: (r.dropped + 1) as u64, ..r },
                ..so_far
            },
            CrashMode::Seeded => {
                let next = advance(so_far.rng);
                let fate = scramble(next) % 100;
                if fate < 40 {
                    Outcome {
                        image: overwritten(so_far.image, entry.0 as int, entry.1),
                        rng: next,
                        report: CrashReport { committed: (r.committed + 1) as u64, ..r },
                    }
                } else if fate < 70 {
                    Outcome {
                        image: so_far.image,
                        rng: next,
                        report: CrashReport { dropped: (r.dropped + 1) as u64, ..r },
                    }
                } else {
                    let n = block_count(entry.1.len() as int, lbs) as nat;
                    let (image, state) = tear(so_far.image, next, entry, lbs, n);
                    Outcome {
                        image,
                        rng: state,
                        report: CrashReport { torn: (r.torn + 1) as u64, ..r },
                    }
                }
            },
        }
    }
}

impl Disk {
    /// What reads see: the volatile writes over the committed image.
    pub open spec fn visible(self) -> Seq<u8> {
        layered(self.committed, self.volatile)
    }

    pub open spec fn in_range(self, off: int, len: int) -> bool {
        0 <= off <= off + len <= self.committed.len()
    }

    pub open spec fn wf(self) -> bool {
        &&& self.lbs > 0
        &&& self.committed.len() < u64::MAX
        &&& entry_bytes(self.volatile) <= self.cache_cap
        &&& forall|k: int|
            0 <= k < self.volatile.len() ==> self.in_range(
                (#[trigger] self.volatile[k]).0 as int,
                self.volatile[k].1.len() as int,
            )
    }

    /// No counter overflows in the next operation.
    pub open spec fn has_room(self) -> bool {
        &&& self.stats.reads < u64::MAX
        &&& self.stats.writes < u64::MAX
        &&& self.stats.flushes < u64::MAX
        &&& self.stats.discards < u64::MAX
        &&& self.stats.errors_injected < u64::MAX
        &&& self.stats.flush_lies < u64::MAX
        &&& self.stats.hangs < u64::MAX
        &&& self.stats.crashes < u64::MAX
        &&& self.has_cache_room()
    }

    /// One more entry can enter the cache, and be written back.
    pub open spec fn has_cache_room(self) -> bool {
        &&& self.stats.autonomous_writebacks + self.volatile.len() < u64::MAX
        &&& entry_bytes(self.volatile) + self.committed.len() <= u64::MAX
    }

    /// The disk after the oldest volatile entries wrote themselves back until
    /// the rest fits the cache.
    pub open spec fn drained(self) -> Disk
        decreases self.volatile.len(),
    {
        if self.volatile.len() > 0 && entry_bytes(self.volatile) > self.cache_cap {
            let oldest = self.volatile[0];
            Disk {
                committed: overwritten(self.committed, oldest.0 as int, oldest.1),
                volatile: self.volatile.skip(1),
                stats: Stats {
                    autonomous_writebacks: (self.stats.autonomous_writebacks + 1) as u64,
                    ..self.stats
                },
                ..self
            }.drained()
        } else {
            self
        }
    }

    /// The disk after an entry went into the cache.
    pub open spec fn cached(self, off: u64, data: Seq<u8>) -> Disk {
        Disk { volatile: self.volatile.push((off, data)), ..self }.drained()
    }

    /// How much of an errored write reaches the cache all the same.
    pub open spec fn error_keeps(self, len: int) -> int {
        let state = advance(state_after_roll(self.rng, self.policy.error_pm));
        (scramble(state) as int % (len / (self.lbs as int) + 1)) * self.lbs
    }

    /// Whether the next write is to fail.
    pub open spec fn write_errors(self) -> bool {
        roll(self.rng, self.policy.error_pm)
    }

    /// The disk after a write.
    pub open spec fn written(self, off: u64, data: Seq<u8>) -> Disk {
        let counted = Disk {
            rng: state_after_roll(self.rng, self.policy.error_pm),
            stats: Stats { writes: (self.stats.writes + 1) as u64, ..self.stats },
            ..self
        };
        if self.write_errors() {
            let failed = Disk {
                rng: advance(counted.rng),
                stats: Stats {
                    errors_injected: (self.stats.errors_injected + 1) as u64,
                    ..counted.stats
                },
                ..counted
            };
            let keep = self.error_keeps(data.len() as int);
            if keep > 0 {
                failed.cached(off, data.take(keep))
            } else {
                failed
            }
        } else {
            counted.cached(off, data)
        }
    }

    /// The disk after a discard.
    pub open spec fn discarded(self, off: u64, len: u64) -> Disk {
        Disk {
            stats: Stats { discards: (self.stats.discards + 1) as u64, ..self.stats },
            ..self
        }.cached(off, Seq::new(len as nat, |i: int| 0u8))
    }

    /// Whether the next flush is to be acked without being done.
    pub open spec fn flush_lies(self) -> bool {
        roll(self.rng, self.policy.flush_lie_pm)
    }

    /// The disk after a flush.
    pub open spec fn flushed(self) -> Disk {
        let counted = Disk {
            rng: state_after_roll(self.rng, self.policy.flush_lie_pm),
            stats: Stats { flushes: (self.stats.flushes + 1) as u64, ..self.stats },
            ..self
        };
        if self.flush_lies() {
            Disk {
                stats: Stats {
                    flush_lies: (self.stats.flush_lies + 1) as u64,
                    ..counted.stats
                },
                ..counted
            }
        } else {
            Disk { committed: self.visible(), volatile: Seq::empty(), ..counted }
        }
    }

    /// What a power loss in the given mode leaves.
    pub open spec fn loss(self, mode: CrashMode) -> Outcome {
        power_loss(self.committed, self.rng, self.volatile, self.lbs, mode)
    }

    /// The disk after a power loss.
    pub open spec fn crashed(self, mode: CrashMode) -> Disk {
        let outcome = self.loss(mode);
        Disk {
            committed: outcome.image,
            volatile: Seq::empty(),
            rng: outcome.rng,
            stats: Stats { crashes: (self.stats.crashes + 1) as u64, ..self.stats },
            ..self
        }
    }
}

pub struct Model {
    /// torn granularity: an entry is kept/dropped in units of this many bytes
    pub lbs: u32,
    pub cache_cap: u64,
    pub committed: Vec<u8>,
    pub volatile: Vec<(u64, Vec<u8>)>,
    pub volatile_bytes: u64,
    pub rng: Rng,
    pub policy: Policy,
    pub stats: Stats,
}

/// The views of the volatile entries.
pub open spec fn entry_views(entries: Seq<(u64, Vec<u8>)>) -> Seq<Entry> {
    entries.map_values(|e: (u64, Vec<u8>)| (e.0, e.1@))
}

impl View for Model {
    type V = Disk;

    open spec fn view(&self) -> Disk {
        Disk {
            lbs: self.lbs,
            cache_cap: self.cache_cap,
            committed: self.committed@,
            volatile: entry_views(self.volatile@),
            rng: self.rng.0,
            policy: self.policy,
            stats: self.stats,
        }
    }
}

/// Put `data` into `committed` at `off`.
pub fn apply(committed: &mut Vec<u8>, off: u64, data: &[u8])
    requires
        off + data@.len() <= old(committed)@.len(),
    ensures
        final(committed)@ == overwritten(old(committed)@, off as int, data@),
{
    let ghost before = committed@;
    let n: usize = data.len();
    let total: usize = committed.len();
    let start: usize = off as usize;
    let mut i: usize = 0;
    while i < n
        invariant
            i <= n == data@.len(),
            start == off,
            start + n <= total == committed@.len(),
            before.len() == total,
            forall|k: int|
                0 <= k < total ==> committed@[k] == if start <= k < start + i {
                    data@[k - start]
                } else {
                    before[k]
                },
        decreases n - i,
    {
        committed.set(start + i, data[i]);
        i = i + 1;
    }
    proof {
        assert(committed@ =~= overwritten(before, off as int, data@));
    }
}

/// Copy the part of `data` (device offset `doff`) that overlaps the window
/// [`woff`, `woff` + out.len()) into `out`.
pub fn overlay(out: &mut [u8], woff: u64, doff: u64, data: &[u8])
    requires
        woff + old(out)@.len() <= u64::MAX,
        doff + data@.len() <= u64::MAX,
    ensures
        final(out)@ == Seq::new(
            old(out)@.len(),
            |i: int|
                if doff <= woff + i < doff + data@.len() {
                    data@[woff + i - doff]
                } else {
                    old(out)@[i]
                },
        ),
{
    let ghost before = out@;
    let wend: u64 = woff + out.len() as u64;
    let dend: u64 = doff + data.len() as u64;
    let start: u64 = if woff < doff {
        doff
    } else {
        woff
    };
    let end: u64 = if wend < dend {
        wend
    } else {
        dend
    };
    let mut pos: u64 = start;
    while pos < end
        invariant
            woff <= start <= pos,
            doff <= start,
            end <= wend,
            end <= dend,
            start < end ==> pos <= end,
            end <= start ==> pos == start,
            wend == woff + out@.len(),
            dend == doff + data@.len(),
            before.len() == out@.len(),
            forall|k: int|
                0 <= k < before.len() ==> out@[k] == if start <= woff + k < pos {
                    data@[woff + k - doff]
                } else {
                    before[k]
                },
        decreases end - pos,
    {
        let to: usize = (pos - woff) as usize;
        let from: usize = (pos - doff) as usize;
        out[to] = data[from];
        pos = pos + 1;
    }
    proof {
        assert(out@ =~= Seq::new(
            before.len(),
            |i: int|
                if doff <= woff + i < doff + data@.len() {
                    data@[woff + i - doff]
                } else {
                    before[i]
                },
        ));
    }
}

pub proof fn lemma_layered_len(base: Seq<u8>, entries: Seq<Entry>)
    ensures
        layered(base, entries).len() == base.len(),
    decreases entries.len(),
{
    if entries.len() > 0 {
        lemma_layered_len(base, entries.drop_last());
    }
}

/// The oldest entry goes first.
pub proof fn lemma_layered_first(base: Seq<u8>, entries: Seq<Entry>)
    requires
        entries.len() > 0,
    ensures
        layered(base, entries) == layered(
            overwritten(base, entries[0].0 as int, entries[0].1),
            entries.skip(1),
        ),
    decreases entries.len(),
{
    if entries.len() == 1 {
        assert(entries.drop_last() =~= Seq::empty());
        assert(entries.skip(1) =~= Seq::empty());
        reveal_with_fuel(layered, 2);
    } else {
        lemma_layered_first(base, entries.drop_last());
        assert(entries.skip(1).drop_last() =~= entries.drop_last().skip(1));
        assert(entries.skip(1).last() == entries.last());
        assert(entries.drop_last()[0] == entries[0]);
    }
}

proof fn lemma_entry_bytes_first(entries: Seq<Entry>)
    requires
        entries.len() > 0,
    ensures
        entry_bytes(entries) == entries[0].1.len() + entry_bytes(entries.skip(1)),
    decreases entries.len(),
{
    if entries.len() == 1 {
        assert(entries.drop_last() =~= Seq::empty());
        assert(entries.skip(1) =~= Seq::empty());
        reveal_with_fuel(entry_bytes, 2);
    } else {
        lemma_entry_bytes_first(entries.drop_last());
        assert(entries.skip(1).drop_last() =~= entries.drop_last().skip(1));
        assert(entries.skip(1).last() == entries.last());
        assert(entries.drop_last()[0] == entries[0]);
    }
}

impl Model {
    pub open spec fn wf(&self) -> bool {
        &&& self@.wf()
        &&& self.volatile_bytes == entry_bytes(self@.volatile)
    }

    /// A disk of `size` zero bytes.
    pub fn new(size: u64, lbs: u32, cache_cap: u64, seed: u64, policy: Policy) -> (model: Self)
        requires
            lbs > 0,
            size <= usize::MAX,
            size < u64::MAX,
        ensures
            model.wf(),
            model@ == (Disk {
                lbs,
                cache_cap,
                committed: Seq::new(size as nat, |i: int| 0u8),
                volatile: Seq::empty(),
                rng: seed,
                policy,
                stats: Stats::zero(),
            }),
    {
        let model = Model {
            lbs,
            cache_cap,
            committed: vec![0u8; size as usize],
            volatile: Vec::new(),
            volatile_bytes: 0,
            rng: Rng(seed),
            policy,
            stats: Stats::default(),
        };
        proof {
            assert(model@.committed =~= Seq::new(size as nat, |i: int| 0u8));
            assert(model@.volatile =~= Seq::empty());
        }
        model
    }

    /// Whether no counter overflows in the next operation.
    pub fn has_room(&self) -> (r: bool)
        requires
            self.wf(),
        ensures
            r == self@.has_room(),
    {
        let s = &self.stats;
        let top: u64 = u64::MAX;
        let entries: u64 = self.volatile.len() as u64;
        s.reads < top && s.writes < top && s.flushes < top && s.discards < top && s.errors_injected
            < top && s.flush_lies < top && s.hangs < top && s.crashes < top
            && s.autonomous_writebacks < top - entries && self.volatile_bytes <= top
            - self.committed.len() as u64
    }

    pub fn volatile_bytes(&self) -> (n: u64)
        requires
            self.wf(),
        ensures
            n == entry_bytes(self@.volatile),
    {
        self.volatile_bytes
    }

    pub fn read(&mut self, off: u64, out: &mut [u8])
        requires
            old(self).wf(),
            old(self)@.stats.reads < u64::MAX,
            old(self)@.in_range(off as int, old(out)@.len() as int),
        ensures
            final(self).wf(),
            final(self)@ == (Disk {
                stats: Stats { reads: (old(self)@.stats.reads + 1) as u64, ..old(self)@.stats },
                ..old(self)@
            }),
            final(out)@ == old(self)@.visible().subrange(off as int, off + old(out)@.len()),
    {
        self.stats.reads = self.stats.reads + 1;
        let ghost len = out@.len();
        let ghost disk = self@;
        let start: usize = off as usize;
        let n: usize = out.len();
        let total: usize = self.committed.len();
        let mut i: usize = 0;
        while i < n
            invariant
                i <= n == out@.len(),
                start + n <= total == self.committed@.len(),
                forall|k: int| 0 <= k < i ==> out@[k] == self.committed@[start + k],
            decreases n - i,
        {
            out[i] = self.committed[start + i];
            i = i + 1;
        }
        let count: usize = self.volatile.len();
        let mut v: usize = 0;
        proof {
            assert(disk.volatile.take(0) =~= Seq::empty());
            assert(out@ =~= disk.committed.subrange(off as int, off + len));
        }
        while v < count
            invariant
                v <= count == self.volatile@.len(),
                disk == self@,
                disk.wf(),
                out@.len() == len,
                disk.in_range(off as int, len as int),
                out@ == layered(disk.committed, disk.volatile.take(v as int)).subrange(
                    off as int,
                    off + len,
                ),
            decreases count - v,
        {
            let ghost seen = disk.volatile.take(v as int);
            let ghost next = disk.volatile.take(v + 1);
            let ghost entry = disk.volatile[v as int];
            proof {
                assert(next.drop_last() =~= seen);
                assert(next.last() == entry);
                lemma_layered_len(disk.committed, seen);
                lemma_layered_len(disk.committed, next);
                assert(entry == (self.volatile@[v as int].0, self.volatile@[v as int].1@));
            }
            overlay(out, off, self.volatile[v].0, &self.volatile[v].1);
            proof {
                assert(out@ =~= layered(disk.committed, next).subrange(off as int, off + len));
            }
            v = v + 1;
        }
        proof {
            assert(disk.volatile.take(count as int) =~= disk.volatile);
        }
    }

    /// Put an entry into the volatile cache. A real disk cache drains on its
    /// own; oldest-first keeps the crash window recent.
    fn push_volatile(&mut self, off: u64, data: Vec<u8>)
        requires
            old(self).wf(),
            old(self)@.has_cache_room(),
            old(self)@.in_range(off as int, data@.len() as int),
        ensures
            final(self).wf(),
            final(self)@ == old(self)@.cached(off, data@),
    {
        let ghost before = self@;
        let ghost bytes = data@;
        self.volatile_bytes = self.volatile_bytes + data.len() as u64;
        self.volatile.push((off, data));
        let ghost pushed = Disk { volatile: before.volatile.push((off, bytes)), ..before };
        proof {
            assert(pushed.volatile.drop_last() =~= before.volatile);
            assert(entry_views(self.volatile@) =~= pushed.volatile);
        }
        while self.volatile_bytes > self.cache_cap
            invariant
                self@.lbs > 0,
                self@.committed.len() < u64::MAX,
                self.volatile_bytes == entry_bytes(self@.volatile),
                forall|k: int|
                    0 <= k < self@.volatile.len() ==> self@.in_range(
                        (#[trigger] self@.volatile[k]).0 as int,
                        self@.volatile[k].1.len() as int,
                    ),
                self@.drained() == pushed.drained(),
                self.stats.autonomous_writebacks + self.volatile@.len() <= u64::MAX,
            decreases self.volatile@.len(),
        {
            let ghost now = self@;
            proof {
                assert(now.volatile.len() == self.volatile@.len());
                assert(self.volatile@.len() > 0);
                assert(now.volatile[0] == (self.volatile@[0].0, self.volatile@[0].1@));
                lemma_entry_bytes_first(now.volatile);
                assert(now.in_range(now.volatile[0].0 as int, now.volatile[0].1.len() as int));
            }
            let oldest: (u64, Vec<u8>) = self.volatile.remove(0);
            self.volatile_bytes = self.volatile_bytes - oldest.1.len() as u64;
            apply(&mut self.committed, oldest.0, &oldest.1);
            self.stats.autonomous_writebacks = self.stats.autonomous_writebacks + 1;
            proof {
                assert(self@.volatile =~= now.volatile.skip(1));
                assert forall|k: int| 0 <= k < self@.volatile.len() implies self@.in_range(
                    (#[trigger] self@.volatile[k]).0 as int,
                    self@.volatile[k].1.len() as int,
                ) by {
                    assert(self@.volatile[k] == now.volatile[k + 1]);
                }
            }
        }
    }
}

impl Model {
    /// Returns the byte count on success or a negative errno.
    pub fn write(&mut self, off: u64, data: &[u8]) -> (res: i32)
        requires
            old(self).wf(),
            old(self)@.stats.writes < u64::MAX,
            old(self)@.stats.errors_injected < u64::MAX,
            old(self)@.has_cache_room(),
            old(self)@.in_range(off as int, data@.len() as int),
        ensures
            final(self).wf(),
            final(self)@ == old(self)@.written(off, data@),
            res == if old(self)@.write_errors() {
                (-eio_code()) as i32
            } else {
                data@.len() as i32
            },
    {
        let ghost before = self@;
        self.stats.writes = self.stats.writes + 1;
        let error: bool = self.rng.hit(self.policy.error_pm);
        if error {
            self.stats.errors_injected = self.stats.errors_injected + 1;
            // the failed write may still have partially reached the cache
            let blocks: u64 = data.len() as u64 / self.lbs as u64;
            let picked: u64 = self.rng.below(blocks + 1);
            proof {
                let len = data@.len() as int;
                let l = self.lbs as int;
                assert(0 <= picked * l <= len && (len / l) * l <= len) by (nonlinear_arith)
                    requires
                        l > 0,
                        0 <= picked <= len / l,
                ;
                assert(picked * l == before.error_keeps(len));
            }
            let keep: u64 = picked * self.lbs as u64;
            if keep > 0 {
                let part: &[u8] = vstd::slice::slice_subrange(data, 0, keep as usize);
                let kept: Vec<u8> = vstd::slice::slice_to_vec(part);
                proof {
                    assert(kept@ =~= data@.take(keep as int));
                }
                self.push_volatile(off, kept);
            }
            return -eio();
        }
        let whole: Vec<u8> = vstd::slice::slice_to_vec(data);
        proof {
            assert(whole@ =~= data@);
        }
        self.push_volatile(off, whole);
        data.len() as i32
    }

    /// DISCARD: contract here is "reads as zeros afterwards"; it enters the
    /// volatile cache like any write, so an unflushed discard can be undone
    /// by a crash.
    pub fn discard(&mut self, off: u64, len: u64)
        requires
            old(self).wf(),
            old(self)@.stats.discards < u64::MAX,
            old(self)@.has_cache_room(),
            old(self)@.in_range(off as int, len as int),
        ensures
            final(self).wf(),
            final(self)@ == old(self)@.discarded(off, len),
    {
        self.stats.discards = self.stats.discards + 1;
        let _size: usize = self.committed.len();
        assert(len <= _size);
        let zeros: Vec<u8> = vec![0u8; len as usize];
        proof {
            assert(zeros@ =~= Seq::new(len as nat, |i: int| 0u8));
        }
        self.push_volatile(off, zeros);
    }

    pub fn flush(&mut self)
        requires
            old(self).wf(),
            old(self)@.stats.flushes < u64::MAX,
            old(self)@.stats.flush_lies < u64::MAX,
        ensures
            final(self).wf(),
            final(self)@ == old(self)@.flushed(),
    {
        self.stats.flushes = self.stats.flushes + 1;
        if self.rng.hit(self.policy.flush_lie_pm) {
            self.stats.flush_lies = self.stats.flush_lies + 1;
            return;
        }
        let ghost disk = self@;
        let mut entries: Vec<(u64, Vec<u8>)> = Vec::new();
        std::mem::swap(&mut entries, &mut self.volatile);
        self.volatile_bytes = 0;
        let n: usize = entries.len();
        let mut i: usize = 0;
        proof {
            assert(disk.volatile.take(0) =~= Seq::empty());
        }
        while i < n
            invariant
                i <= n == entries@.len(),
                entry_views(entries@) == disk.volatile,
                disk.wf(),
                self.volatile@.len() == 0,
                self.volatile_bytes == 0,
                self@ == (Disk {
                    committed: self.committed@,
                    volatile: entry_views(self.volatile@),
                    ..disk
                }),
                self.committed@ == layered(disk.committed, disk.volatile.take(i as int)),
            decreases n - i,
        {
            proof {
                let entry = disk.volatile[i as int];
                assert(entry == (entries@[i as int].0, entries@[i as int].1@));
                assert(disk.volatile.take(i + 1).drop_last() =~= disk.volatile.take(i as int));
                assert(disk.volatile.take(i + 1).last() == entry);
                lemma_layered_len(disk.committed, disk.volatile.take(i as int));
                assert(disk.in_range(entry.0 as int, entry.1.len() as int));
            }
            apply(&mut self.committed, entries[i].0, &entries[i].1);
            i = i + 1;
        }
        proof {
            assert(disk.volatile.take(n as int) =~= disk.volatile);
            assert(entry_views(self.volatile@) =~= Seq::empty());
            lemma_layered_len(disk.committed, disk.volatile);
        }
    }

    /// Apply each block of a torn entry that the generator lets persist.
    fn tear_entry(&mut self, off: u64, data: &[u8])
        requires
            old(self)@.lbs > 0,
            old(self)@.in_range(off as int, data@.len() as int),
        ensures
            ({
                let (image, state) = tear(
                    old(self)@.committed,
                    old(self)@.rng,
                    (off, data@),
                    old(self)@.lbs,
                    block_count(data@.len() as int, old(self)@.lbs) as nat,
                );
                &&& image.len() == old(self)@.committed.len()
                &&& final(self)@ == (Disk { committed: image, rng: state, ..old(self)@ })
                &&& final(self).volatile == old(self).volatile
                &&& final(self).volatile_bytes == old(self).volatile_bytes
            }),
    {
        let ghost disk = self@;
        let ghost entry: Entry = (off, data@);
        let lbs: usize = self.lbs as usize;
        let total: usize = self.committed.len();
        let n: usize = data.len();
        let mut pos: usize = 0;
        let mut done: Ghost<nat> = Ghost(0);
        let ghost count = block_count(n as int, self.lbs);
        proof {
            assert(count >= 0 && (n == 0 ==> count == 0)) by (nonlinear_arith)
                requires
                    lbs > 0,
                    n >= 0,
                    count == (n + lbs - 1) / (lbs as int),
            ;
        }
        while pos < n
            invariant
                0 < lbs == disk.lbs,
                pos <= n == data@.len(),
                off + n <= total == disk.committed.len(),
                entry == (off, data@),
                pos < n ==> pos == done@ * lbs,
                pos == n ==> done@ == count,
                count == block_count(n as int, disk.lbs),
                self@ == (Disk {
                    committed: tear(disk.committed, disk.rng, entry, disk.lbs, done@).0,
                    rng: tear(disk.committed, disk.rng, entry, disk.lbs, done@).1,
                    ..disk
                }),
                self.committed@.len() == total,
                self.volatile == old(self).volatile,
                self.volatile_bytes == old(self).volatile_bytes,
            decreases n - pos,
        {
            let step: usize = if n - pos < lbs {
                n - pos
            } else {
                lbs
            };
            let ghost d = done@ as int;
            proof {
                let l = lbs as int;
                assert((d + 1) * l == d * l + l) by (nonlinear_arith);
                if n - pos <= lbs {
                    assert(count == d + 1) by (nonlinear_arith)
                        requires
                            l > 0,
                            d * l < n <= d * l + l,
                            count == (n + l - 1) / l,
                    ;
                }
            }
            if self.rng.below(2) == 0 {
                let piece: &[u8] = vstd::slice::slice_subrange(data, pos, pos + step);
                proof {
                    assert(piece@ =~= block(data@, disk.lbs, d));
                }
                apply(&mut self.committed, off + pos as u64, piece);
            }
            pos = pos + step;
            proof {
                done@ = done@ + 1;
                assert((done@ - 1) as nat == d as nat);
            }
        }
    }

    /// Power loss: a seed-chosen subset of the volatile cache survives.
    pub fn crash(&mut self, mode: CrashMode) -> (report: CrashReport)
        requires
            old(self).wf(),
            old(self)@.stats.crashes < u64::MAX,
        ensures
            final(self).wf(),
            final(self)@ == old(self)@.crashed(mode),
            report == old(self)@.loss(mode).report,
    {
        self.stats.crashes = self.stats.crashes + 1;
        let ghost disk = self@;
        let mut report = CrashReport { committed: 0, dropped: 0, torn: 0 };
        let mut entries: Vec<(u64, Vec<u8>)> = Vec::new();
        std::mem::swap(&mut entries, &mut self.volatile);
        self.volatile_bytes = 0;
        let n: usize = entries.len();
        let mut i: usize = 0;
        proof {
            assert(disk.volatile.take(0) =~= Seq::empty());
        }
        while i < n
            invariant
                i <= n == entries@.len(),
                entry_views(entries@) == disk.volatile,
                disk.wf(),
                self.volatile@.len() == 0,
                self.volatile_bytes == 0,
                self@ == (Disk {
                    committed: self.committed@,
                    volatile: entry_views(self.volatile@),
                    rng: self.rng.0,
                    ..disk
                }),
                self.committed@.len() == disk.committed.len(),
                ({
                    let so_far = power_loss(
                        disk.committed,
                        disk.rng,
                        disk.volatile.take(i as int),
                        disk.lbs,
                        mode,
                    );
                    &&& self.committed@ == so_far.image
                    &&& self.rng.0 == so_far.rng
                    &&& report == so_far.report
                }),
                report.committed + report.dropped + report.torn <= i,
            decreases n - i,
        {
            proof {
                let entry = disk.volatile[i as int];
                assert(entry == (entries@[i as int].0, entries@[i as int].1@));
                assert(disk.volatile.take(i + 1).drop_last() =~= disk.volatile.take(i as int));
                assert(disk.volatile.take(i + 1).last() == entry);
                assert(disk.in_range(entry.0 as int, entry.1.len() as int));
            }
            match mode {
                CrashMode::Drop => {
                    report.dropped = report.dropped + 1;
                },
                CrashMode::Seeded => {
                    let fate: u64 = self.rng.below(100);
                    if fate < 40 {
                        apply(&mut self.committed, entries[i].0, &entries[i].1);
                        report.committed = report.committed + 1;
                    } else if fate < 70 {
                        report.dropped = report.dropped + 1;
                    } else {
                        // torn: each logical block independently persists
                        self.tear_entry(entries[i].0, &entries[i].1);
                        report.torn = report.torn + 1;
                    }
                },
            }
            i = i + 1;
        }
        proof {
            assert(disk.volatile.take(n as int) =~= disk.volatile);
            assert(entry_views(self.volatile@) =~= Seq::empty());
        }
        report
    }
}

/// A model stands for the disk that its fields hold; its cached writes are
/// kept in their order.
pub proof fn a_model_is_its_disk(m: Model, k: int)
    requires
        0 <= k < m.volatile@.len(),
    ensures
        m@.lbs == m.lbs,
        m@.cache_cap == m.cache_cap,
        m@.committed == m.committed@,
        m@.volatile.len() == m.volatile@.len(),
        m@.volatile[k].0 == m.volatile@[k].0,
        m@.volatile[k].1 == m.volatile@[k].1@,
        m@.rng == m.rng.0,
        m@.policy == m.policy,
        m@.stats == m.stats,
{
}

/// A disk begins with nothing counted, and a range lies on it exactly when
/// both its ends do.
pub proof fn nothing_is_counted_at_first(disk: Disk, off: int, len: int)
    ensures
        ({
            let s = Stats::zero();
            &&& s.reads == 0 && s.writes == 0 && s.flushes == 0 && s.discards == 0
            &&& s.errors_injected == 0 && s.flush_lies == 0 && s.hangs == 0 && s.crashes == 0
            &&& s.autonomous_writebacks == 0
        }),
        0 <= off && 0 <= len ==> (disk.in_range(off, len) <==> off + len <= disk.committed.len()),
{
}

} // verus!
