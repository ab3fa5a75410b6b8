//! The chaos harness: it drives a device through random writes, checkpoints,
//! crashes, re-attaches and metadata loss, while simulating an
//! incremental-backup consumer. Two invariants are checked after every backup:
//!
//!   1. passthrough integrity: the device reads back exactly what was written
//!      to it;
//!   2. the tracking contract: a consumer that copies only the ranges reported
//!      since its cursor (falling back to a full copy whenever the cursor is
//!      rejected) ends up with an identical image. A single silently missing
//!      chunk fails this.
//!
//! Everything is derived from a seed, so the sequence of operations repeats
//! with it. What is decided and checked is here; the caller runs the daemon
//! and does the IO.

use vstd::prelude::*;

use crate::cbt::overwritten;
use crate::json::{
    json_bool, json_fault, json_item, json_len, json_shown, json_str, json_u64, opt_view,
};
use crate::model::{layered, Entry};
use crate::rng::{advance, advance_by, draw, scramble, stream_byte, Rng};
use crate::runner::first_difference;
use crate::text::{decimal, push_decimal, same, views};
use crate::ublk::bdev_path;

verus! {

/// A write has this many bytes at most.
pub const MAX_WRITE: u64 = 0x4_0000;

/// Writers that are at work when the daemon is killed.
pub const WRITERS: u64 = 4;

/// Device reads are made in pieces of this many bytes.
pub const PIECE: u64 = 0x10_0000;

#[derive(Clone, Copy, Debug, PartialEq, Eq, Structural)]
pub struct Counters {
    pub writes: u64,
    pub bursts: u64,
    pub backups: u64,
    pub full_copies: u64,
    pub checkpoints: u64,
    pub reattaches: u64,
    pub crashes: u64,
    pub inflight_crashes: u64,
    pub interrupted: u64,
    pub meta_losses: u64,
}

impl Counters {
    pub open spec fn zero() -> Counters {
        Counters {
            writes: 0,
            bursts: 0,
            backups: 0,
            full_copies: 0,
            checkpoints: 0,
            reattaches: 0,
            crashes: 0,
            inflight_crashes: 0,
            interrupted: 0,
            meta_losses: 0,
        }
    }

    /// Each counter can count `k` more.
    pub open spec fn has_room(self, k: int) -> bool {
        &&& self.writes + k <= u64::MAX
        &&& self.bursts + k <= u64::MAX
        &&& self.backups + k <= u64::MAX
        &&& self.full_copies + k <= u64::MAX
        &&& self.checkpoints + k <= u64::MAX
        &&& self.reattaches + k <= u64::MAX
        &&& self.crashes + k <= u64::MAX
        &&& self.inflight_crashes + k <= u64::MAX
        &&& self.interrupted + k <= u64::MAX
        &&& self.meta_losses + k <= u64::MAX
    }
}

/// The operations of an episode.
#[derive(Clone, Copy, Debug, PartialEq, Eq, Structural)]
pub enum Op {
    WriteBurst,
    BackupVerify,
    Checkpoint,
    Reattach,
    Crash,
    CrashInflight,
    LoseMeta,
}

/// The operation that a number below 100 stands for.
pub open spec fn op_for(r: u64) -> Op {
    if r < 45 {
        Op::WriteBurst
    } else if r < 60 {
        Op::BackupVerify
    } else if r < 70 {
        Op::Checkpoint
    } else if r < 80 {
        Op::Reattach
    } else if r < 88 {
        Op::Crash
    } else if r < 96 {
        Op::CrashInflight
    } else {
        Op::LoseMeta
    }
}

/// Draw the next operation.
pub fn pick_op(rng: &mut Rng) -> (op: Op)
    ensures
        final(rng).0 == advance(old(rng).0),
        op == op_for(scramble(advance(old(rng).0)) % 100),
{
    let r: u64 = rng.below(100);
    if r < 45 {
        Op::WriteBurst
    } else if r < 60 {
        Op::BackupVerify
    } else if r < 70 {
        Op::Checkpoint
    } else if r < 80 {
        Op::Reattach
    } else if r < 88 {
        Op::Crash
    } else if r < 96 {
        Op::CrashInflight
    } else {
        Op::LoseMeta
    }
}

/// What the harness knows.
#[verifier::ext_equal]
pub struct Episode {
    pub size: u64,
    pub gran: u64,
    pub queues: u16,
    pub buffered: bool,
    pub dev_id: Option<u64>,
    pub generation: Seq<char>,
    /// ground truth: what the device must contain
    pub expected: Seq<u8>,
    /// the consumer's backup image
    pub shadow: Seq<u8>,
    /// the consumer's cursor: generation and closed era of its last backup
    pub cursor: Option<(Seq<char>, u32)>,
    pub journal: Seq<Seq<char>>,
    pub n: Counters,
}

pub struct Harness {
    pub size: u64,
    pub gran: u64,
    pub queues: u16,
    pub buffered: bool,
    pub dev_id: Option<u64>,
    pub generation: String,
    /// ground truth: what the device must contain (updated on every write)
    pub expected: Vec<u8>,
    /// the simulated consumer's backup image (updated only from dumps)
    pub shadow: Vec<u8>,
    /// the consumer's cursor: (generation, closed era) of its last backup
    pub cursor: Option<(String, u32)>,
    pub journal: Vec<String>,
    pub n: Counters,
}

pub open spec fn cursor_view(cursor: Option<(String, u32)>) -> Option<(Seq<char>, u32)> {
    match cursor {
        Some((generation, era)) => Some((generation@, era)),
        None => None,
    }
}

impl View for Harness {
    type V = Episode;

    open spec fn view(&self) -> Episode {
        Episode {
            size: self.size,
            gran: self.gran,
            queues: self.queues,
            buffered: self.buffered,
            dev_id: self.dev_id,
            generation: self.generation@,
            expected: self.expected@,
            shadow: self.shadow@,
            cursor: cursor_view(self.cursor),
            journal: views(self.journal@),
            n: self.n,
        }
    }
}

impl Episode {
    pub open spec fn wf(self) -> bool {
        &&& self.size >= 4096
        &&& self.size % 4096 == 0
        &&& self.gran > 0
        &&& self.expected.len() == self.size
        &&& self.shadow.len() == self.size
    }

    pub open spec fn noted(self, line: Seq<char>) -> Episode {
        Episode { journal: self.journal.push(line), ..self }
    }
}

/// The granularity of an episode: as given, or derived from the seed.
pub open spec fn episode_gran(given: u64, rng: u64) -> u64 {
    if given != 0 {
        given
    } else {
        seq![4096u64, 16384, 65536, 262144][(scramble(advance(rng)) % 4) as int]
    }
}

/// The generator after the granularity was settled.
pub open spec fn after_gran(given: u64, rng: u64) -> u64 {
    if given != 0 {
        rng
    } else {
        advance(rng)
    }
}

/// The size of an episode's device: as given, or derived from the seed. A
/// size that is no granularity multiple keeps the partial tail chunk in play.
pub open spec fn episode_size(given: u64, rng: u64) -> u64 {
    if given != 0 {
        given
    } else {
        (0x200_0000 + 4096 * (scramble(advance(rng)) % 16)) as u64
    }
}

/// The number of queues that is derived from the seed.
pub open spec fn episode_queues(rng: u64) -> u16 {
    seq![1u16, 2, 4][(scramble(advance(rng)) % 3) as int]
}

impl Harness {
    /// Settle an episode: what is not given is derived from the seed.
    pub fn setup(granularity: u64, size: u64, buffered: bool, rng: &mut Rng) -> (res: Result<
        Harness,
        String,
    >)
        requires
            size <= usize::MAX,
        ensures
            ({
                let state = after_gran(granularity, old(rng).0);
                let bytes = episode_size(size, state);
                let next = after_gran(size, state);
                if bytes % 4096 != 0 {
                    &&& res matches Err(t) && t@ == "--size must be a multiple of 4096"@
                    &&& final(rng).0 == next
                } else {
                    &&& final(rng).0 == advance(next)
                    &&& res matches Ok(h) && h@.wf() && h@ == (Episode {
                        size: bytes,
                        gran: episode_gran(granularity, old(rng).0),
                        queues: episode_queues(next),
                        buffered,
                        dev_id: None,
                        generation: Seq::empty(),
                        expected: Seq::new(bytes as nat, |i: int| 0u8),
                        shadow: Seq::new(bytes as nat, |i: int| 0u8),
                        cursor: None,
                        journal: Seq::empty(),
                        n: Counters::zero(),
                    })
                }
            }),
    {
        let gran: u64 = if granularity != 0 {
            granularity
        } else {
            match rng.below(4) {
                0 => 4096,
                1 => 16384,
                2 => 65536,
                _ => 262144,
            }
        };
        let bytes: u64 = if size != 0 {
            size
        } else {
            0x200_0000 + 4096 * rng.below(16)
        };
        if bytes % 4096 != 0 {
            return Err("--size must be a multiple of 4096".to_owned());
        }
        let queues: u16 = match rng.below(3) {
            0 => 1,
            1 => 2,
            _ => 4,
        };
        let h = Harness {
            size: bytes,
            gran,
            queues,
            buffered,
            dev_id: None,
            generation: String::new(),
            expected: vec![0u8; bytes as usize],
            shadow: vec![0u8; bytes as usize],
            cursor: None,
            journal: Vec::new(),
            n: Counters {
                writes: 0,
                bursts: 0,
                backups: 0,
                full_copies: 0,
                checkpoints: 0,
                reattaches: 0,
                crashes: 0,
                inflight_crashes: 0,
                interrupted: 0,
                meta_losses: 0,
            },
        };
        proof {
            assert(h@.expected =~= Seq::new(bytes as nat, |i: int| 0u8));
            assert(h@.shadow =~= Seq::new(bytes as nat, |i: int| 0u8));
            assert(h@.journal =~= Seq::empty());
        }
        Ok(h)
    }

    /// Keep a line for the report of a failure.
    pub fn note(&mut self, msg: String)
        ensures
            final(self)@ == old(self)@.noted(msg@),
    {
        let ghost before = self@;
        self.journal.push(msg);
        proof {
            assert(self@.journal =~= before.journal.push(msg@));
        }
    }
}

/// The random write that a generator decides on within `[base, base + span)`.
pub open spec fn write_off(base: u64, span: u64, rng: u64) -> int {
    base + 4096 * (draw(rng, 0) as int % (span as int / 4096))
}

pub open spec fn write_len(base: u64, span: u64, rng: u64) -> int {
    let left = base + span - write_off(base, span, rng);
    let most = if left < MAX_WRITE {
        left
    } else {
        MAX_WRITE as int
    };
    4096 * (1 + draw(rng, 1) as int % (most / 4096))
}

/// The content of a random write.
pub open spec fn write_data(base: u64, span: u64, rng: u64) -> Seq<u8> {
    Seq::new(
        write_len(base, span, rng) as nat,
        |i: int| stream_byte(advance_by(rng, 2), i),
    )
}

/// The generator after a random write.
pub open spec fn after_write(base: u64, span: u64, rng: u64) -> u64 {
    advance_by(rng, (2 + (write_len(base, span, rng) + 7) / 8) as nat)
}

proof fn lemma_advance_by_split(state: u64, a: nat, b: nat)
    ensures
        advance_by(advance_by(state, a), b) == advance_by(state, a + b),
    decreases b,
{
    if b > 0 {
        lemma_advance_by_split(state, a, (b - 1) as nat);
    }
}

/// Decide on a write at a 4K-aligned offset within `[base, base + span)`.
pub fn random_write(rng: &mut Rng, base: u64, span: u64) -> (write: (u64, Vec<u8>))
    requires
        span >= 4096,
        base % 4096 == 0,
        span % 4096 == 0,
        base + span <= u64::MAX,
    ensures
        write.0 == write_off(base, span, old(rng).0),
        write.1@ == write_data(base, span, old(rng).0),
        final(rng).0 == after_write(base, span, old(rng).0),
        write.0 % 4096 == 0,
        write.1@.len() % 4096 == 0,
        0 < write.1@.len() <= MAX_WRITE,
        base <= write.0,
        write.0 + write.1@.len() <= base + span,
{
    let ghost state = rng.0;
    proof {
        reveal_with_fuel(advance_by, 4);
    }
    let block: u64 = rng.below(span / 4096);
    let off: u64 = base + 4096 * block;
    let left: u64 = base + span - off;
    let most: u64 = if left < MAX_WRITE {
        left
    } else {
        MAX_WRITE
    };
    let pick: u64 = rng.below(most / 4096);
    let len: u64 = 4096 * (1 + pick);
    let mut data: Vec<u8> = vec![0u8; len as usize];
    proof {
        assert(rng.0 == advance_by(state, 2));
        assert(off == write_off(base, span, state));
        assert(len == write_len(base, span, state));
    }
    rng.fill(data.as_mut_slice());
    proof {
        lemma_advance_by_split(state, 2, ((len + 7) / 8) as nat);
        assert(data@ =~= write_data(base, span, state));
    }
    (off, data)
}

/// How many writes a burst has.
pub fn burst_size(rng: &mut Rng) -> (count: u64)
    ensures
        final(rng).0 == advance(old(rng).0),
        count == 1 + scramble(advance(old(rng).0)) % 24,
        1 <= count <= 24,
{
    1 + rng.below(24)
}

/// How a checkpoint without a backup is noted.
pub open spec fn checkpoint_note(closed: Option<Seq<char>>) -> Seq<char> {
    "checkpoint: closed era "@ + match closed {
        Some(shown) => shown,
        None => Seq::empty(),
    }
}

/// The journal does not end with a line on a backup.
pub open spec fn needs_note(journal: Seq<Seq<char>>) -> bool {
    journal.len() == 0 || !"backup:"@.is_prefix_of(journal.last())
}

/// The line on an incremental backup.
pub open spec fn incremental_note(
    cursor: Option<(Seq<char>, u32)>,
    ranges: nat,
    copied: nat,
) -> Seq<char> {
    "backup: incremental since ("@ + match cursor {
        Some((generation, era)) => generation + ", "@ + decimal(era as nat),
        None => Seq::empty(),
    } + "): "@ + decimal(ranges) + " ranges, "@ + decimal(copied) + "B"@
}

/// Whether a text begins with `head`.
fn starts_with(text: &str, head: &str) -> (yes: bool)
    ensures
        yes == head@.is_prefix_of(text@),
{
    let n: usize = head.unicode_len();
    if n > text.unicode_len() {
        return false;
    }
    let start: &str = text.substring_char(0, n);
    let yes: bool = same(start, head);
    proof {
        assert(start@ == text@.subrange(0, n as int));
        if yes {
            assert(head@ =~= text@.subrange(0, head@.len() as int));
        } else if head@.is_prefix_of(text@) {
            assert(head@ =~= text@.subrange(0, head@.len() as int));
        }
    }
    yes
}

impl Harness {
    /// A write completed: the device must hold it from now on.
    pub fn write_done(&mut self, off: u64, data: &[u8])
        requires
            old(self)@.wf(),
            off + data@.len() <= old(self)@.size,
            old(self)@.n.has_room(1),
        ensures
            final(self)@.wf(),
            final(self)@ == (Episode {
                expected: overwritten(old(self)@.expected, off as int, data@),
                n: Counters { writes: (old(self)@.n.writes + 1) as u64, ..old(self)@.n },
                ..old(self)@
            }),
    {
        crate::model::apply(&mut self.expected, off, data);
        self.n.writes = self.n.writes + 1;
    }

    /// A burst of writes is over.
    pub fn burst_done(&mut self, count: u64)
        requires
            old(self)@.wf(),
            old(self)@.n.bursts < u64::MAX,
        ensures
            final(self)@.wf(),
            final(self)@ == (Episode {
                n: Counters { bursts: (old(self)@.n.bursts + 1) as u64, ..old(self)@.n },
                ..old(self)@
            }).noted("write burst: "@ + decimal(count as nat) + " writes"@),
    {
        self.n.bursts = self.n.bursts + 1;
        let mut t: String = "write burst: ".to_owned();
        push_decimal(&mut t, count);
        t.append(" writes");
        self.note(t);
    }

    /// A checkpoint without a backup was taken: it widens the era gap that the
    /// next diff spans. `closed` is the closed era as the reply shows it.
    pub fn checkpoint_done(&mut self, closed: Option<String>)
        requires
            old(self)@.wf(),
            old(self)@.n.has_room(1),
        ensures
            final(self)@.wf(),
            final(self)@ == (Episode {
                n: Counters { checkpoints: (old(self)@.n.checkpoints + 1) as u64, ..old(self)@.n },
                ..old(self)@
            }).noted(checkpoint_note(opt_view(closed))),
    {
        self.n.checkpoints = self.n.checkpoints + 1;
        let mut t: String = "checkpoint: closed era ".to_owned();
        match closed {
            Some(shown) => t.append(&shown),
            None => {
                proof {
                    assert(t@ =~= "checkpoint: closed era "@ + Seq::empty());
                }
            },
        }
        self.note(t);
    }

    /// A checkpoint for a backup was taken.
    pub fn backup_begins(&mut self)
        requires
            old(self)@.wf(),
            old(self)@.n.has_room(1),
        ensures
            final(self)@.wf(),
            final(self)@ == (Episode {
                n: Counters { checkpoints: (old(self)@.n.checkpoints + 1) as u64, ..old(self)@.n },
                ..old(self)@
            }),
    {
        self.n.checkpoints = self.n.checkpoints + 1;
    }

    /// All ranges of a diff were copied.
    pub fn incremental_done(&mut self, ranges: usize, copied: u64)
        requires
            old(self)@.wf(),
            old(self)@.cursor is Some,
        ensures
            final(self)@.wf(),
            final(self)@ == old(self)@.noted(
                incremental_note(old(self)@.cursor, ranges as nat, copied as nat),
            ),
    {
        let mut t: String = "backup: incremental since (".to_owned();
        if let Some((generation, era)) = &self.cursor {
            t.append(generation);
            t.append(", ");
            push_decimal(&mut t, *era as u64);
        }
        t.append("): ");
        push_decimal(&mut t, ranges as u64);
        t.append(" ranges, ");
        push_decimal(&mut t, copied);
        t.append("B");
        proof {
            assert(t@ =~= incremental_note(self@.cursor, ranges as nat, copied as nat));
        }
        self.note(t);
    }

    /// The daemon did not accept the cursor.
    pub fn cursor_rejected(&mut self, cause: &str)
        requires
            old(self)@.wf(),
        ensures
            final(self)@.wf(),
            final(self)@ == old(self)@.noted(
                "backup: cursor rejected ("@ + cause@ + "), full copy"@,
            ),
    {
        let mut t: String = "backup: cursor rejected (".to_owned();
        t.append(cause);
        t.append("), full copy");
        self.note(t);
    }

    /// The whole device was read for the backup.
    pub fn full_copy(&mut self, image: Vec<u8>)
        requires
            old(self)@.wf(),
            image@.len() == old(self)@.size,
            old(self)@.n.has_room(1),
        ensures
            final(self)@.wf(),
            ({
                let copied = Episode {
                    shadow: image@,
                    n: Counters {
                        full_copies: (old(self)@.n.full_copies + 1) as u64,
                        ..old(self)@.n
                    },
                    ..old(self)@
                };
                final(self)@ == if needs_note(old(self)@.journal) {
                    copied.noted("backup: full copy (no cursor)"@)
                } else {
                    copied
                }
            }),
    {
        self.shadow = image;
        self.n.full_copies = self.n.full_copies + 1;
        let count: usize = self.journal.len();
        let told: bool = count > 0 && starts_with(&self.journal[count - 1], "backup:");
        proof {
            if count > 0 {
                assert(views(self.journal@).last() == self.journal@[count - 1]@);
            }
        }
        if !told {
            self.note("backup: full copy (no cursor)".to_owned());
        }
    }

    /// The backup is complete up to the era that its checkpoint closed.
    pub fn backup_ends(&mut self, closed: u32)
        requires
            old(self)@.wf(),
            old(self)@.n.backups < u64::MAX,
        ensures
            final(self)@.wf(),
            final(self)@ == (Episode {
                cursor: Some((old(self)@.generation, closed)),
                n: Counters { backups: (old(self)@.n.backups + 1) as u64, ..old(self)@.n },
                ..old(self)@
            }),
    {
        self.cursor = Some((self.generation.clone(), closed));
        self.n.backups = self.n.backups + 1;
    }
}

/// The chunks among the first `n` in which the images differ.
pub open spec fn bad_chunks(actual: Seq<u8>, model: Seq<u8>, gran: u64, n: nat) -> nat
    decreases n,
{
    if n == 0 {
        0
    } else {
        let i = n - 1;
        let end = if (i + 1) * gran < actual.len() {
            (i + 1) * gran
        } else {
            actual.len() as int
        };
        bad_chunks(actual, model, gran, (n - 1) as nat) + if actual.subrange(i * gran, end)
            != model.subrange(i * gran, end) {
            1nat
        } else {
            0
        }
    }
}

/// The words for two images that differ.
pub open spec fn mismatch(
    what: Seq<char>,
    actual: Seq<u8>,
    model: Seq<u8>,
    gran: u64,
    first: int,
) -> Seq<char> {
    let chunks = crate::era::chunk_count(actual.len() as u64, gran);
    what + " MISMATCH: first differing byte at "@ + decimal(first as nat) + " (chunk "@ + decimal(
        (first / (gran as int)) as nat,
    ) + "), "@ + decimal(bad_chunks(actual, model, gran, chunks as nat)) + " of "@ + decimal(
        chunks as nat,
    ) + " chunks differ"@
}

/// Whether `[from, to)` of two images differs.
fn differs(actual: &[u8], model: &[u8], from: usize, to: usize) -> (yes: bool)
    requires
        from <= to <= actual@.len(),
        actual@.len() == model@.len(),
    ensures
        yes == (actual@.subrange(from as int, to as int) != model@.subrange(
            from as int,
            to as int,
        )),
{
    let mut i: usize = from;
    while i < to
        invariant
            from <= i <= to <= actual@.len(),
            actual@.len() == model@.len(),
            forall|k: int| from <= k < i ==> actual@[k] == model@[k],
        decreases to - i,
    {
        if actual[i] != model[i] {
            proof {
                assert(actual@.subrange(from as int, to as int)[i - from] != model@.subrange(
                    from as int,
                    to as int,
                )[i - from]);
            }
            return true;
        }
        i = i + 1;
    }
    proof {
        assert(actual@.subrange(from as int, to as int) =~= model@.subrange(
            from as int,
            to as int,
        ));
    }
    false
}

/// How many chunks of two images differ.
fn count_bad_chunks(actual: &[u8], model: &[u8], gran: u64) -> (count: u64)
    requires
        gran > 0,
        actual@.len() == model@.len(),
        actual@.len() <= u64::MAX,
    ensures
        count == bad_chunks(
            actual@,
            model@,
            gran,
            crate::era::chunk_count(actual@.len() as u64, gran) as nat,
        ),
{
    let total: usize = actual.len();
    let chunks: u64 = crate::era::count_chunks(total as u64, gran);
    let mut count: u64 = 0;
    let mut i: u64 = 0;
    let mut from: u64 = 0;
    proof {
        crate::era::lemma_chunks_reach_end(total as u64, gran);
    }
    while i < chunks
        invariant
            gran > 0,
            i <= chunks,
            total == actual@.len() == model@.len(),
            chunks == crate::era::chunk_count(total as u64, gran),
            i < chunks ==> from == i * gran,
            count <= i,
            count == bad_chunks(actual@, model@, gran, i as nat),
        decreases chunks - i,
    {
        proof {
            crate::era::lemma_chunk_starts_inside(total as u64, gran, i as int);
            assert((i + 1) * gran == i * gran + gran) by (nonlinear_arith);
            if i + 1 < chunks {
                crate::era::lemma_chunk_starts_inside(total as u64, gran, i + 1);
            }
        }
        let left: u64 = total as u64 - from;
        let to: u64 = if gran < left {
            from + gran
        } else {
            total as u64
        };
        if differs(actual, model, from as usize, to as usize) {
            count = count + 1;
        }
        from = to;
        i = i + 1;
    }
    count
}

impl Harness {
    /// Hold what the device holds against what it should.
    pub fn diff(&self, what: &str, actual: &[u8], model: &[u8]) -> (res: Result<(), String>)
        requires
            self@.gran > 0,
            actual@.len() == model@.len(),
            actual@.len() <= u64::MAX,
        ensures
            match res {
                Ok(_) => actual@ == model@,
                Err(t) => exists|first: int| #[trigger]
                    first_difference(actual@, model@, first) && t@ == mismatch(
                        what@,
                        actual@,
                        model@,
                        self@.gran,
                        first,
                    ),
            },
    {
        match crate::runner::find_difference(actual, model) {
            None => Ok(()),
            Some(first) => {
                let total: u64 = actual.len() as u64;
                proof {
                    let g = self.gran as int;
                    assert(first as int / g >= 0) by (nonlinear_arith)
                        requires
                            g > 0,
                            first >= 0,
                    ;
                }
                let mut t: String = what.to_owned();
                t.append(" MISMATCH: first differing byte at ");
                push_decimal(&mut t, first as u64);
                t.append(" (chunk ");
                push_decimal(&mut t, first as u64 / self.gran);
                t.append("), ");
                push_decimal(&mut t, count_bad_chunks(actual, model, self.gran));
                t.append(" of ");
                push_decimal(&mut t, crate::era::count_chunks(total, self.gran));
                t.append(" chunks differ");
                proof {
                    assert(first_difference(actual@, model@, first as int));
                }
                Err(t)
            },
        }
    }

    /// Both invariants against a fresh read of the whole device.
    pub fn verify(&self, actual: &[u8]) -> (res: Result<(), String>)
        requires
            self@.wf(),
            actual@.len() == self@.size,
        ensures
            res is Ok <==> actual@ == self@.expected && actual@ == self@.shadow,
            res matches Err(t) ==> exists|first: int|
                #![trigger first_difference(actual@, self@.expected, first)]
                #![trigger first_difference(actual@, self@.shadow, first)]
                if actual@ != self@.expected {
                    first_difference(actual@, self@.expected, first) && t@ == mismatch(
                        "passthrough (device vs expected)"@,
                        actual@,
                        self@.expected,
                        self@.gran,
                        first,
                    )
                } else {
                    first_difference(actual@, self@.shadow, first) && t@ == mismatch(
                        "CBT (backup image vs device)"@,
                        actual@,
                        self@.shadow,
                        self@.gran,
                        first,
                    )
                },
    {
        match self.diff("passthrough (device vs expected)", actual, &self.expected) {
            Err(t) => Err(t),
            Ok(_) => self.diff("CBT (backup image vs device)", actual, &self.shadow),
        }
    }
}

/// The pieces in which `[off, off + len)` is read: one after the other, each
/// `PIECE` bytes but for the last.
pub fn pieces(off: u64, len: u64) -> (list: Vec<(u64, u64)>)
    requires
        off + len <= u64::MAX,
    ensures
        list@.len() == (len + PIECE - 1) / (PIECE as int),
        forall|k: int|
            0 <= k < list@.len() ==> (#[trigger] list@[k]).0 == off + k * PIECE && list@[k].1
                == if (k + 1) * PIECE <= len {
                PIECE as int
            } else {
                len - k * PIECE
            },
{
    let mut list: Vec<(u64, u64)> = Vec::new();
    let mut pos: u64 = 0;
    while pos < len
        invariant
            off + len <= u64::MAX,
            pos <= len,
            pos < len ==> pos == list@.len() * PIECE,
            pos == len ==> list@.len() == (len + PIECE - 1) / (PIECE as int),
            forall|k: int|
                0 <= k < list@.len() ==> (#[trigger] list@[k]).0 == off + k * PIECE && list@[k].1
                    == if (k + 1) * PIECE <= len {
                    PIECE as int
                } else {
                    len - k * PIECE
                },
        decreases len - pos,
    {
        let left: u64 = len - pos;
        let n: u64 = if left < PIECE {
            left
        } else {
            PIECE
        };
        list.push((off + pos, n));
        pos = pos + n;
    }
    list
}

/// The ranges among the first `n` of a diff reply, up to the first that is
/// broken, and what is wrong with that one.
pub open spec fn reply_ranges(text: Seq<char>, n: nat) -> (Seq<(u64, u64)>, Option<Seq<char>>)
    decreases n,
{
    if n == 0 {
        (Seq::empty(), None)
    } else {
        let before = reply_ranges(text, (n - 1) as nat);
        let i = (n - 1) as usize;
        match (
            before.1,
            json_item(text, "ranges"@, i, "offset"@),
            json_item(text, "ranges"@, i, "len"@),
        ) {
            (Some(_), _, _) => before,
            (None, Some(off), Some(len)) => (before.0.push((off, len)), None),
            (None, None, _) => (before.0, Some("range offset"@)),
            (None, Some(_), None) => (before.0, Some("range len"@)),
        }
    }
}

/// The ranges of a diff reply, up to the first that is broken, and what is
/// wrong.
pub open spec fn found_ranges(text: Seq<char>) -> (Seq<(u64, u64)>, Option<Seq<char>>) {
    match json_len(text, "ranges"@) {
        Some(n) => reply_ranges(text, n as nat),
        None => (Seq::empty(), Some("dump: no ranges"@)),
    }
}

/// The ranges of a diff reply, up to the first that is broken, and what is
/// wrong.
pub fn diff_ranges(text: &str) -> (found: (Vec<(u64, u64)>, Option<String>))
    ensures
        found.0@ == found_ranges(text@).0,
        opt_view(found.1) == found_ranges(text@).1,
{
    let mut list: Vec<(u64, u64)> = Vec::new();
    let n: usize = match crate::json::len_at(text, "ranges") {
        Some(n) => n,
        None => {
            proof {
                assert(list@ =~= Seq::empty());
            }
            return (list, Some("dump: no ranges".to_owned()));
        },
    };
    let mut i: usize = 0;
    proof {
        assert(list@ =~= Seq::empty());
    }
    while i < n
        invariant
            i <= n,
            json_len(text@, "ranges"@) == Some(n),
            reply_ranges(text@, i as nat) == (list@, None::<Seq<char>>),
        decreases n - i,
    {
        let off: Option<u64> = crate::json::item_at(text, "ranges", i, "offset");
        let len: Option<u64> = crate::json::item_at(text, "ranges", i, "len");
        match (off, len) {
            (Some(o), Some(l)) => {
                list.push((o, l));
            },
            (None, _) => {
                proof {
                    lemma_broken_range_ends(text@, (i + 1) as nat, n as nat);
                }
                return (list, Some("range offset".to_owned()));
            },
            (Some(_), None) => {
                proof {
                    lemma_broken_range_ends(text@, (i + 1) as nat, n as nat);
                }
                return (list, Some("range len".to_owned()));
            },
        }
        i = i + 1;
    }
    (list, None)
}

proof fn lemma_broken_range_ends(text: Seq<char>, n: nat, m: nat)
    requires
        reply_ranges(text, n).1 is Some,
        n <= m,
    ensures
        reply_ranges(text, m) == reply_ranges(text, n),
    decreases m,
{
    if n < m {
        lemma_broken_range_ends(text, n, (m - 1) as nat);
    }
}

/// The words for a history that changed its identity.
pub open spec fn changed_note(
    across: Seq<char>,
    was: Seq<char>,
    is: Seq<char>,
) -> Seq<char> {
    "generation changed across "@ + across + " ("@ + was + " -> "@ + is + ")"@
}

impl Harness {
    /// The path of the device's block node.
    pub fn bdev(&self) -> (res: Result<String, String>)
        ensures
            match self@.dev_id {
                Some(id) => res matches Ok(path) && path@ == crate::ublk::bdev(id as nat),
                None => res matches Err(t) && t@ == "not attached"@,
            },
    {
        match self.dev_id {
            Some(id) => Ok(bdev_path(id)),
            None => Err("not attached".to_owned()),
        }
    }

    /// The arguments that attach the device.
    pub fn add_args(&self, backing: &str, meta: &str) -> (args: Vec<String>)
        ensures
            views(args@) == seq![
                "add"@,
                "-f"@,
                backing@,
                "-g"@,
                decimal(self@.gran as nat),
                "-q"@,
                decimal(self@.queues as nat),
                "--meta"@,
                meta@,
            ] + if self@.buffered {
                seq!["--buffered"@]
            } else {
                Seq::empty()
            },
    {
        let mut args: Vec<String> = Vec::new();
        args.push("add".to_owned());
        args.push("-f".to_owned());
        args.push(backing.to_owned());
        args.push("-g".to_owned());
        args.push(crate::text::decimal_text(self.gran));
        args.push("-q".to_owned());
        args.push(crate::text::decimal_text(self.queues as u64));
        args.push("--meta".to_owned());
        args.push(meta.to_owned());
        if self.buffered {
            args.push("--buffered".to_owned());
        }
        proof {
            assert(views(args@) =~= seq![
                "add"@,
                "-f"@,
                backing@,
                "-g"@,
                decimal(self@.gran as nat),
                "-q"@,
                decimal(self@.queues as nat),
                "--meta"@,
                meta@,
            ] + if self@.buffered {
                seq!["--buffered"@]
            } else {
                Seq::empty()
            });
        }
        args
    }

    /// The device was attached: remember its id and its history.
    pub fn attached(&mut self, dev_id: Option<u64>, generation: Option<String>) -> (res: Result<
        (),
        String,
    >)
        ensures
            match (dev_id, generation) {
                (None, _) => final(self)@ == old(self)@ && (res matches Err(t) && t@
                    == "add: no dev_id"@),
                (Some(id), None) => final(self)@ == (Episode { dev_id: Some(id), ..old(self)@ })
                    && (res matches Err(t) && t@ == "add: no generation"@),
                (Some(id), Some(g)) => res is Ok && final(self)@ == (Episode {
                    dev_id: Some(id),
                    generation: g@,
                    ..old(self)@
                }),
            },
    {
        let id: u64 = match dev_id {
            Some(id) => id,
            None => {
                return Err("add: no dev_id".to_owned());
            },
        };
        self.dev_id = Some(id);
        match generation {
            Some(g) => {
                self.generation = g;
                Ok(())
            },
            None => Err("add: no generation".to_owned()),
        }
    }

    /// The daemon's reply to the request that attached the device.
    pub fn attach_reply(&mut self, text: &str) -> (res: Result<(), String>)
        ensures
            match (json_u64(text@, "dev_id"@), json_str(text@, "generation"@)) {
                (None, _) => final(self)@ == old(self)@ && (res matches Err(t) && t@
                    == "add: no dev_id"@),
                (Some(id), None) => final(self)@ == (Episode { dev_id: Some(id), ..old(self)@ })
                    && (res matches Err(t) && t@ == "add: no generation"@),
                (Some(id), Some(g)) => res is Ok && final(self)@ == (Episode {
                    dev_id: Some(id),
                    generation: g,
                    ..old(self)@
                }),
            },
    {
        let dev_id: Option<u64> = crate::json::u64_at(text, "dev_id");
        let generation: Option<String> = crate::json::str_at(text, "generation");
        self.attached(dev_id, generation)
    }

    /// The device is gone.
    pub fn detached(&mut self) -> (id: Option<u64>)
        ensures
            id == old(self)@.dev_id,
            final(self)@ == (Episode { dev_id: None, ..old(self)@ }),
    {
        let id: Option<u64> = self.dev_id;
        self.dev_id = None;
        id
    }

    /// Whether the history is still the one it was.
    fn check_same(&self, across: &str, was: &str) -> (res: Result<(), String>)
        ensures
            match res {
                Ok(_) => self@.generation == was@,
                Err(t) => self@.generation != was@ && t@ == changed_note(
                    across@,
                    was@,
                    self@.generation,
                ),
            },
    {
        if same(&self.generation, was) {
            return Ok(());
        }
        let mut t: String = "generation changed across ".to_owned();
        t.append(across);
        t.append(" (");
        t.append(was);
        t.append(" -> ");
        t.append(&self.generation);
        t.append(")");
        Err(t)
    }

    /// Graceful detach and re-attach: metadata must load clean, same history.
    /// `recovered` is what the reply says of recovery.
    pub fn reattached(&mut self, was: &str, recovered: Option<bool>) -> (res: Result<(), String>)
        requires
            old(self)@.n.has_room(1),
        ensures
            if recovered == Some(true) {
                (res matches Err(t) && t@ == "clean detach was flagged recovered_unclean"@)
                    && final(self)@ == old(self)@
            } else if old(self)@.generation != was@ {
                (res matches Err(t) && t@ == changed_note(
                    "clean re-attach"@,
                    was@,
                    old(self)@.generation,
                )) && final(self)@ == old(self)@
            } else {
                res is Ok && final(self)@ == (Episode {
                    n: Counters {
                        reattaches: (old(self)@.n.reattaches + 1) as u64,
                        ..old(self)@.n
                    },
                    ..old(self)@
                }).noted("reattach: clean"@)
            },
    {
        if let Some(flag) = recovered {
            if flag {
                return Err("clean detach was flagged recovered_unclean".to_owned());
            }
        }
        match self.check_same("clean re-attach", was) {
            Err(t) => Err(t),
            Ok(_) => {
                self.n.reattaches = self.n.reattaches + 1;
                self.note("reattach: clean".to_owned());
                Ok(())
            },
        }
    }

    /// The daemon was killed, restarted, and the device re-attached: recovery
    /// must be flagged and the history preserved. The consumer's next backup
    /// then sees an everything-changed diff and stays correct.
    pub fn recovered(&mut self, was: &str, recovered: Option<bool>) -> (res: Result<(), String>)
        requires
            old(self)@.n.has_room(1),
        ensures
            if recovered != Some(true) {
                (res matches Err(t) && t@ == "crash recovery not flagged recovered_unclean"@)
                    && final(self)@ == old(self)@
            } else if old(self)@.generation != was@ {
                (res matches Err(t) && t@ == changed_note(
                    "crash recovery"@,
                    was@,
                    old(self)@.generation,
                )) && final(self)@ == old(self)@
            } else {
                res is Ok && final(self)@ == (Episode {
                    n: Counters { crashes: (old(self)@.n.crashes + 1) as u64, ..old(self)@.n },
                    ..old(self)@
                }).noted("crash: SIGKILL + recover (unclean flagged)"@)
            },
    {
        let flagged: bool = match recovered {
            Some(flag) => flag,
            None => false,
        };
        if !flagged {
            return Err("crash recovery not flagged recovered_unclean".to_owned());
        }
        match self.check_same("crash recovery", was) {
            Err(t) => Err(t),
            Ok(_) => {
                self.n.crashes = self.n.crashes + 1;
                self.note("crash: SIGKILL + recover (unclean flagged)".to_owned());
                Ok(())
            },
        }
    }

    /// The metadata was deleted while detached, and the device re-attached: a
    /// fresh history must have begun. Returns the old cursor, if there is one,
    /// which a diff must now reject.
    pub fn meta_lost(&self, was: &str, recovered: Option<bool>) -> (res: Result<
        Option<(String, u32)>,
        String,
    >)
        ensures
            if recovered == Some(true) {
                res matches Err(t) && t@
                    == "fresh attach after metadata loss was flagged recovered_unclean"@
            } else if self@.generation == was@ {
                res matches Err(t) && t@ == "generation must change when metadata is lost"@
            } else {
                res matches Ok(cursor) && cursor_view(cursor) == self@.cursor
            },
    {
        if let Some(flag) = recovered {
            if flag {
                return Err(
                    "fresh attach after metadata loss was flagged recovered_unclean".to_owned(),
                );
            }
        }
        if same(&self.generation, was) {
            return Err("generation must change when metadata is lost".to_owned());
        }
        match &self.cursor {
            Some((generation, era)) => Ok(Some((generation.clone(), *era))),
            None => Ok(None),
        }
    }

    /// A diff since the old cursor was tried, if there was one.
    pub fn meta_loss_done(&mut self, accepted: bool) -> (res: Result<(), String>)
        requires
            old(self)@.n.has_room(1),
        ensures
            if accepted {
                (res matches Err(t) && t@ == "cursor from the lost history was accepted by dump"@)
                    && final(self)@ == old(self)@
            } else {
                res is Ok && final(self)@ == (Episode {
                    n: Counters {
                        meta_losses: (old(self)@.n.meta_losses + 1) as u64,
                        ..old(self)@.n
                    },
                    ..old(self)@
                }).noted("meta loss: fresh generation, old cursor rejected"@)
            },
    {
        if accepted {
            return Err("cursor from the lost history was accepted by dump".to_owned());
        }
        self.n.meta_losses = self.n.meta_losses + 1;
        self.note("meta loss: fresh generation, old cursor rejected".to_owned());
        Ok(())
    }
}

/// The era that a checkpoint closed, by its reply.
pub open spec fn closed_of(closed: Option<u64>) -> Result<u32, Seq<char>> {
    match closed {
        Some(n) => Ok(n as u32),
        None => Err("no closed_era"@),
    }
}

/// The era that a checkpoint closed.
pub fn closed_era(closed: Option<u64>) -> (res: Result<u32, String>)
    ensures
        match (res, closed_of(closed)) {
            (Ok(n), Ok(m)) => n == m,
            (Err(t), Err(e)) => t@ == e,
            _ => false,
        },
{
    match closed {
        Some(n) => Ok(n as u32),
        None => Err("no closed_era".to_owned()),
    }
}

/// The number that a reply has for `closed_era`.
pub fn reply_closed_era(text: &str) -> (closed: Option<u64>)
    ensures
        closed == json_u64(text@, "closed_era"@),
{
    crate::json::u64_at(text, "closed_era")
}

/// What a reply has for `closed_era`, written out.
pub fn reply_closed_shown(text: &str) -> (shown: Option<String>)
    ensures
        opt_view(shown) == json_shown(text@, "closed_era"@),
{
    crate::json::shown_at(text, "closed_era")
}

/// What a reply says of recovery.
pub fn reply_recovered(text: &str) -> (recovered: Option<bool>)
    ensures
        recovered == json_bool(text@, "recovered_unclean"@),
{
    crate::json::bool_at(text, "recovered_unclean")
}

/// What is wrong with the output of a command that should be JSON.
pub fn reply_fault(text: &str) -> (why: Option<String>)
    ensures
        opt_view(why) == json_fault(text@),
{
    crate::json::fault(text)
}

/// Writers that are at work while the daemon is killed. Each owns a slice of
/// the device, so that their writes can be replayed in a known order.
pub struct Inflight {
    pub slice: u64,
    pub seeds: Vec<u64>,
}

/// The bytes that each writer owns.
pub open spec fn slice_of(size: u64) -> u64 {
    (size / WRITERS / 4096 * 4096) as u64
}

impl Harness {
    /// Send out the writers; `None` for a device that is too small to split.
    pub fn plan_inflight(&self, rng: &mut Rng) -> (plan: Option<Inflight>)
        ensures
            plan is None <==> slice_of(self@.size) == 0,
            plan is None ==> final(rng).0 == old(rng).0,
            plan matches Some(p) ==> {
                &&& p.slice == slice_of(self@.size)
                &&& p.slice >= 4096
                &&& p.slice % 4096 == 0
                &&& WRITERS * p.slice <= self@.size
                &&& p.seeds@ == Seq::new(WRITERS as nat, |t: int| draw(old(rng).0, t as nat))
                &&& final(rng).0 == advance_by(old(rng).0, WRITERS as nat)
            },
    {
        let slice: u64 = self.size / WRITERS / 4096 * 4096;
        if slice == 0 {
            return None;
        }
        let ghost state = rng.0;
        let mut seeds: Vec<u64> = Vec::new();
        let mut t: u64 = 0;
        while t < WRITERS
            invariant
                t <= WRITERS,
                seeds@.len() == t,
                rng.0 == advance_by(state, t as nat),
                forall|k: int| 0 <= k < t ==> seeds@[k] == draw(state, k as nat),
            decreases WRITERS - t,
        {
            seeds.push(rng.next());
            t = t + 1;
        }
        proof {
            assert(seeds@ =~= Seq::new(WRITERS as nat, |t: int| draw(state, t as nat)));
        }
        Some(Inflight { slice, seeds })
    }

    /// Replay what a writer saw complete; returns how many writes that was.
    pub fn replay(&mut self, log: &Vec<(u64, Vec<u8>)>) -> (count: u64)
        requires
            old(self)@.wf(),
            forall|k: int|
                0 <= k < log@.len() ==> (#[trigger] log@[k]).0 + log@[k].1@.len()
                    <= old(self)@.size,
        ensures
            final(self)@.wf(),
            final(self)@ == (Episode {
                expected: layered(old(self)@.expected, crate::model::entry_views(log@)),
                ..old(self)@
            }),
            count == log@.len(),
    {
        let ghost before = self@;
        let ghost entries = crate::model::entry_views(log@);
        let n: usize = log.len();
        let mut i: usize = 0;
        proof {
            assert(entries.take(0) =~= Seq::empty());
        }
        while i < n
            invariant
                i <= n == log@.len(),
                entries == crate::model::entry_views(log@),
                before.wf(),
                self@ == (Episode { expected: self.expected@, ..before }),
                self.expected@ == layered(before.expected, entries.take(i as int)),
                self.expected@.len() == before.size,
                forall|k: int|
                    0 <= k < log@.len() ==> (#[trigger] log@[k]).0 + log@[k].1@.len()
                        <= before.size,
            decreases n - i,
        {
            proof {
                assert(entries.take(i + 1).drop_last() =~= entries.take(i as int));
                assert(entries.take(i + 1).last() == (log@[i as int].0, log@[i as int].1@));
                assert(log@[i as int].0 + log@[i as int].1@.len() <= before.size);
            }
            crate::model::apply(&mut self.expected, log[i].0, &log[i].1);
            i = i + 1;
        }
        proof {
            assert(entries.take(n as int) =~= entries);
        }
        n as u64
    }

    /// All writers are back.
    pub fn writers_back(&mut self, completed: u64)
        requires
            old(self)@.wf(),
            old(self)@.n.has_room(completed as int),
        ensures
            final(self)@.wf(),
            final(self)@ == (Episode {
                n: Counters { writes: (old(self)@.n.writes + completed) as u64, ..old(self)@.n },
                ..old(self)@
            }),
    {
        self.n.writes = self.n.writes + completed;
    }

    /// Whether the restart after the kill was flagged, and kept the history.
    pub fn inflight_recovered(&self, was: &str, recovered: Option<bool>) -> (res: Result<
        (),
        String,
    >)
        ensures
            if recovered != Some(true) {
                res matches Err(t) && t@
                    == "in-flight crash recovery not flagged recovered_unclean"@
            } else if self@.generation != was@ {
                res matches Err(t) && t@ == changed_note(
                    "in-flight crash"@,
                    was@,
                    self@.generation,
                )
            } else {
                res is Ok
            },
    {
        let flagged: bool = match recovered {
            Some(flag) => flag,
            None => false,
        };
        if !flagged {
            return Err("in-flight crash recovery not flagged recovered_unclean".to_owned());
        }
        self.check_same("in-flight crash", was)
    }

    /// Everything that the application saw complete must have survived.
    pub fn inflight_done(&mut self, actual: &[u8], completed: u64, interrupted: u64) -> (res:
        Result<(), String>)
        requires
            old(self)@.wf(),
            actual@.len() == old(self)@.size,
            old(self)@.n.has_room(1),
            old(self)@.n.has_room(interrupted as int),
        ensures
            final(self)@.wf(),
            match res {
                Ok(_) => actual@ == old(self)@.expected && final(self)@ == (Episode {
                    n: Counters {
                        inflight_crashes: (old(self)@.n.inflight_crashes + 1) as u64,
                        interrupted: (old(self)@.n.interrupted + interrupted) as u64,
                        ..old(self)@.n
                    },
                    ..old(self)@
                }).noted(
                    "in-flight crash: "@ + decimal(completed as nat)
                        + " completed writes survived, "@ + decimal(interrupted as nat)
                        + " interrupted"@,
                ),
                Err(t) => final(self)@ == old(self)@ && exists|first: int| #[trigger]
                    first_difference(actual@, old(self)@.expected, first) && t@ == mismatch(
                        "completed writes across in-flight SIGKILL"@,
                        actual@,
                        old(self)@.expected,
                        old(self)@.gran,
                        first,
                    ),
            },
    {
        match self.diff("completed writes across in-flight SIGKILL", actual, &self.expected) {
            Err(t) => Err(t),
            Ok(_) => {
                self.n.inflight_crashes = self.n.inflight_crashes + 1;
                self.n.interrupted = self.n.interrupted + interrupted;
                let mut t: String = "in-flight crash: ".to_owned();
                push_decimal(&mut t, completed);
                t.append(" completed writes survived, ");
                push_decimal(&mut t, interrupted);
                t.append(" interrupted");
                self.note(t);
                Ok(())
            },
        }
    }

    /// The image that the detached device left must be everything written.
    pub fn final_image(&self, on_disk: &[u8]) -> (res: Result<(), String>)
        ensures
            res is Ok <==> on_disk@ == self@.expected,
            res matches Err(t) ==> t@
                == "backing file after detach differs from everything written"@,
    {
        if on_disk.len() == self.expected.len() {
            if crate::runner::find_difference(on_disk, &self.expected).is_none() {
                return Ok(());
            }
        }
        Err("backing file after detach differs from everything written".to_owned())
    }

    /// The last re-attach must not be flagged.
    pub fn final_attach(&self, recovered: Option<bool>) -> (res: Result<(), String>)
        ensures
            res is Ok <==> recovered != Some(true),
            res matches Err(t) ==> t@ == "final re-attach was flagged recovered_unclean"@,
    {
        if let Some(flag) = recovered {
            if flag {
                return Err("final re-attach was flagged recovered_unclean".to_owned());
            }
        }
        Ok(())
    }

    /// Where the last 20 lines of the journal begin.
    pub fn journal_tail(&self) -> (from: usize)
        ensures
            from == if self@.journal.len() > 20 {
                self@.journal.len() - 20
            } else {
                0
            },
    {
        let n: usize = self.journal.len();
        if n > 20 {
            n - 20
        } else {
            0
        }
    }
}

/// How long the writers are left alone before the daemon is killed.
pub fn inflight_delay(rng: &mut Rng) -> (ms: u64)
    ensures
        final(rng).0 == advance(old(rng).0),
        ms == 50 + scramble(advance(old(rng).0)) % 250,
{
    50 + rng.below(250)
}

/// Two writes that share no byte can be made in either order.
proof fn lemma_disjoint_writes_commute(base: Seq<u8>, a: Entry, b: Entry)
    requires
        a.0 + a.1.len() <= b.0 || b.0 + b.1.len() <= a.0,
    ensures
        overwritten(overwritten(base, a.0 as int, a.1), b.0 as int, b.1) == overwritten(
            overwritten(base, b.0 as int, b.1),
            a.0 as int,
            a.1,
        ),
{
    assert(overwritten(overwritten(base, a.0 as int, a.1), b.0 as int, b.1) =~= overwritten(
        overwritten(base, b.0 as int, b.1),
        a.0 as int,
        a.1,
    ));
}

/// All of a log lies in `[from, to)`.
pub open spec fn stays_within(log: Seq<Entry>, from: int, to: int) -> bool {
    forall|k: int|
        0 <= k < log.len() ==> from <= (#[trigger] log[k]).0 && log[k].0 + log[k].1.len() <= to
}

proof fn lemma_write_commutes_with_log(base: Seq<u8>, log: Seq<Entry>, b: Entry, from: int, to: int)
    requires
        stays_within(log, from, to),
        b.0 + b.1.len() <= from || to <= b.0,
    ensures
        layered(overwritten(base, b.0 as int, b.1), log) == overwritten(
            layered(base, log),
            b.0 as int,
            b.1,
        ),
    decreases log.len(),
{
    if log.len() > 0 {
        let rest = log.drop_last();
        assert(stays_within(rest, from, to)) by {
            assert forall|k: int| 0 <= k < rest.len() implies from <= (#[trigger] rest[k]).0
                && rest[k].0 + rest[k].1.len() <= to by {
                assert(rest[k] == log[k]);
            }
        }
        lemma_write_commutes_with_log(base, rest, b, from, to);
        let last = log[log.len() - 1];
        assert(from <= last.0 && last.0 + last.1.len() <= to);
        lemma_disjoint_writes_commute(layered(base, rest), last, b);
    }
}

/// Writers that own disjoint slices can be replayed in any order: the image is
/// the same.
pub proof fn replay_order_does_not_matter(
    base: Seq<u8>,
    a: Seq<Entry>,
    b: Seq<Entry>,
    a_from: int,
    a_to: int,
    b_from: int,
    b_to: int,
)
    requires
        stays_within(a, a_from, a_to),
        stays_within(b, b_from, b_to),
        a_to <= b_from || b_to <= a_from,
    ensures
        layered(layered(base, a), b) == layered(layered(base, b), a),
    decreases b.len(),
{
    if b.len() > 0 {
        let rest = b.drop_last();
        assert(stays_within(rest, b_from, b_to)) by {
            assert forall|k: int| 0 <= k < rest.len() implies b_from <= (#[trigger] rest[k]).0
                && rest[k].0 + rest[k].1.len() <= b_to by {
                assert(rest[k] == b[k]);
            }
        }
        replay_order_does_not_matter(base, a, rest, a_from, a_to, b_from, b_to);
        let last = b[b.len() - 1];
        assert(b_from <= last.0 && last.0 + last.1.len() <= b_to);
        lemma_write_commutes_with_log(layered(base, rest), a, last, a_from, a_to);
    }
}

/// The slices of two writers share no byte.
pub proof fn slices_are_disjoint(size: u64, a: int, b: int)
    requires
        0 <= a < b < WRITERS,
    ensures
        (a + 1) * slice_of(size) <= b * slice_of(size),
        (b + 1) * slice_of(size) <= size,
{
    let s = slice_of(size) as int;
    assert((a + 1) * s <= b * s) by (nonlinear_arith)
        requires
            a + 1 <= b,
            s >= 0,
    ;
    assert((b + 1) * s <= WRITERS * s) by (nonlinear_arith)
        requires
            b + 1 <= WRITERS,
            s >= 0,
    ;
}

/// Append words and a number.
fn push_count(t: &mut String, words: &str, n: u64)
    ensures
        final(t)@ == old(t)@ + words@ + decimal(n as nat),
{
    t.append(words);
    push_decimal(t, n);
}

/// The line after every fifty operations.
pub open spec fn progress_text(ep: Episode, done: u32, ops: u32) -> Seq<char> {
    "CHAOS: op "@ + decimal(done as nat) + "/"@ + decimal(ops as nat) + " (writes="@ + decimal(
        ep.n.writes as nat,
    ) + " backups="@ + decimal(ep.n.backups as nat) + " crashes="@ + decimal(ep.n.crashes as nat)
        + " reattaches="@ + decimal(ep.n.reattaches as nat) + " meta_losses="@ + decimal(
        ep.n.meta_losses as nat,
    ) + ")"@
}

impl Harness {
    /// The line that an episode begins with.
    pub fn start_line(&self, seed: u64, ops: u32) -> (t: String)
        ensures
            t@ == "CHAOS: seed="@ + decimal(seed as nat) + " ops="@ + decimal(ops as nat)
                + " size="@ + decimal(self@.size as nat) + " granularity="@ + decimal(
                self@.gran as nat,
            ) + " queues="@ + decimal(self@.queues as nat) + " buffered="@ + if self@.buffered {
                "true"@
            } else {
                "false"@
            },
    {
        let mut t: String = "CHAOS: seed=".to_owned();
        push_decimal(&mut t, seed);
        push_count(&mut t, " ops=", ops as u64);
        push_count(&mut t, " size=", self.size);
        push_count(&mut t, " granularity=", self.gran);
        push_count(&mut t, " queues=", self.queues as u64);
        t.append(" buffered=");
        if self.buffered {
            t.append("true");
        } else {
            t.append("false");
        }
        t
    }

    /// The line that tells of progress.
    pub fn progress_line(&self, done: u32, ops: u32) -> (t: String)
        ensures
            t@ == progress_text(self@, done, ops),
    {
        let mut t: String = "CHAOS: op ".to_owned();
        push_decimal(&mut t, done as u64);
        push_count(&mut t, "/", ops as u64);
        push_count(&mut t, " (writes=", self.n.writes);
        push_count(&mut t, " backups=", self.n.backups);
        push_count(&mut t, " crashes=", self.n.crashes);
        push_count(&mut t, " reattaches=", self.n.reattaches);
        push_count(&mut t, " meta_losses=", self.n.meta_losses);
        t.append(")");
        t
    }

    /// The line that an episode ends with when all went well.
    pub fn pass_line(&self, seed: u64) -> (t: String)
        ensures
            t@ == "CHAOS-PASS seed="@ + decimal(seed as nat) + ": "@ + decimal(
                self@.n.writes as nat,
            ) + " writes in "@ + decimal(self@.n.bursts as nat) + " bursts, "@ + decimal(
                self@.n.backups as nat,
            ) + " backups ("@ + decimal(self@.n.full_copies as nat) + " full), "@ + decimal(
                self@.n.checkpoints as nat,
            ) + " checkpoints, "@ + decimal(self@.n.reattaches as nat) + " reattaches, "@
                + decimal(self@.n.crashes as nat) + " crashes (+"@ + decimal(
                self@.n.inflight_crashes as nat,
            ) + " in-flight, "@ + decimal(self@.n.interrupted as nat) + " writes interrupted), "@
                + decimal(self@.n.meta_losses as nat) + " meta losses"@,
    {
        let mut t: String = "CHAOS-PASS seed=".to_owned();
        push_decimal(&mut t, seed);
        push_count(&mut t, ": ", self.n.writes);
        push_count(&mut t, " writes in ", self.n.bursts);
        push_count(&mut t, " bursts, ", self.n.backups);
        push_count(&mut t, " backups (", self.n.full_copies);
        push_count(&mut t, " full), ", self.n.checkpoints);
        push_count(&mut t, " checkpoints, ", self.n.reattaches);
        push_count(&mut t, " reattaches, ", self.n.crashes);
        push_count(&mut t, " crashes (+", self.n.inflight_crashes);
        push_count(&mut t, " in-flight, ", self.n.interrupted);
        push_count(&mut t, " writes interrupted), ", self.n.meta_losses);
        t.append(" meta losses");
        t
    }
}

/// A harness stands for the episode that its fields hold.
pub proof fn a_harness_is_its_episode(h: Harness)
    ensures
        h@.size == h.size,
        h@.gran == h.gran,
        h@.queues == h.queues,
        h@.buffered == h.buffered,
        h@.dev_id == h.dev_id,
        h@.generation == h.generation@,
        h@.expected == h.expected@,
        h@.shadow == h.shadow@,
        h@.cursor is Some <==> h.cursor is Some,
        h.cursor matches Some((generation, era)) ==> h@.cursor == Some((generation@, era)),
        h@.journal == views(h.journal@),
        h@.n == h.n,
{
}

/// What is given takes no draw, what is derived takes one, and a random write
/// takes two and one for each eight bytes of its content.
pub proof fn draws_are_taken_as_needed(given: u64, base: u64, span: u64, rng: u64)
    requires
        span >= 4096,
        span % 4096 == 0,
        base % 4096 == 0,
    ensures
        given != 0 ==> after_gran(given, rng) == rng,
        after_gran(0, rng) == advance(rng),
        after_write(base, span, rng) == advance_by(
            rng,
            (2 + write_data(base, span, rng).len() / 8) as nat,
        ),
{
    let off = write_off(base, span, rng);
    let blocks = span as int / 4096;
    let d = draw(rng, 0) as int;
    let k = d % blocks;
    assert(0 <= k < blocks) by (nonlinear_arith)
        requires
            blocks > 0,
            k == d % blocks,
    ;
    assert(off == base + 4096 * k);
    let left = base + span - off;
    let most = if left < MAX_WRITE {
        left
    } else {
        MAX_WRITE as int
    };
    let room = most / 4096;
    assert(room > 0);
    let e = draw(rng, 1) as int;
    let j = e % room;
    assert(0 <= j < room) by (nonlinear_arith)
        requires
            room > 0,
            j == e % room,
    ;
    assert(write_len(base, span, rng) == 4096 * (1 + j));
}

/// The lines of the journal name the eras, ranges, bytes and histories that
/// they are about.
pub proof fn notes_name_their_subject(
    generation: Seq<char>,
    era: u32,
    ranges: nat,
    copied: nat,
    across: Seq<char>,
    was: Seq<char>,
    is: Seq<char>,
    shown: Seq<char>,
    journal: Seq<Seq<char>>,
)
    ensures
        incremental_note(Some((generation, era)), ranges, copied)
            == "backup: incremental since ("@ + (generation + ", "@ + decimal(era as nat))
            + "): "@ + decimal(ranges) + " ranges, "@ + decimal(copied) + "B"@,
        changed_note(across, was, is) == "generation changed across "@ + across + " ("@ + was
            + " -> "@ + is + ")"@,
        checkpoint_note(Some(shown)) == "checkpoint: closed era "@ + shown,
        needs_note(journal) <==> journal.len() == 0 || !"backup:"@.is_prefix_of(journal.last()),
{
}

/// The line on how far an episode is tells the operation and the counts.
pub proof fn progress_tells_the_counts(ep: Episode, done: u32, ops: u32)
    ensures
        progress_text(ep, done, ops) == "CHAOS: op "@ + decimal(done as nat) + "/"@ + decimal(
            ops as nat,
        ) + " (writes="@ + decimal(ep.n.writes as nat) + " backups="@ + decimal(
            ep.n.backups as nat,
        ) + " crashes="@ + decimal(ep.n.crashes as nat) + " reattaches="@ + decimal(
            ep.n.reattaches as nat,
        ) + " meta_losses="@ + decimal(ep.n.meta_losses as nat) + ")"@,
{
}

} // verus!
