//! An episode of the chaos harness as a sequence of actions and events: what
//! each operation does first, and what follows from the outcome of each
//! action. The caller performs the actions on the daemon and the device.

use vstd::prelude::*;

use crate::cbt::overwritten;
use crate::chaos::{
    after_write, burst_size, changed_note, checkpoint_note, closed_era, closed_of, cursor_view,
    diff_ranges, found_ranges, incremental_note, inflight_delay, mismatch, needs_note, op_for,
    pick_op, progress_text, random_write, reply_closed_era, reply_closed_shown, reply_recovered,
    slice_of, write_data, write_off, Counters, Episode, Harness, Op, WRITERS,
};
use crate::json::{json_bool, json_shown, json_str, json_u64, opt_view};
use crate::model::{apply, entry_views, layered};
use crate::rng::{advance, advance_by, draw, scramble, Rng};
use crate::runner::first_difference;
use crate::text::{decimal, push_decimal};

verus! {

/// A part of an episode.
#[derive(Clone, Copy, Debug, PartialEq, Eq, Structural)]
pub enum Task {
    /// start the daemon and attach the device
    Boot,
    Op { op: Op },
    /// one last verified backup, then the detached image itself must be
    /// everything written, then a final clean re-attach and shutdown
    WindDown,
}

/// What a writer that was at work during a kill saw.
pub struct WriterLog {
    /// the writes that completed
    pub ok: Vec<(u64, Vec<u8>)>,
    /// the write that the kill interrupted: content undefined
    pub undefined: Vec<(u64, u64)>,
}

impl WriterLog {
    /// A write of this writer came back: one that completed is kept, and the
    /// writer goes on; one that failed is undefined from then on, and the
    /// writer stops.
    pub fn logged(&mut self, off: u64, data: Vec<u8>, ok: bool) -> (go_on: bool)
        ensures
            go_on == ok,
            final(self).ok@ == if ok {
                old(self).ok@.push((off, data))
            } else {
                old(self).ok@
            },
            final(self).undefined@ == if ok {
                old(self).undefined@
            } else {
                old(self).undefined@.push((off, data@.len() as u64))
            },
    {
        if ok {
            self.ok.push((off, data));
        } else {
            self.undefined.push((off, data.len() as u64));
        }
        ok
    }
}

/// What the caller is to do.
pub enum Action {
    StartDaemon,
    /// send the daemon the request to attach the device
    Attach,
    /// wait for the block node and open it
    Open { path: String },
    Write { off: u64, data: Vec<u8> },
    ReadAll,
    ReadRanges { ranges: Vec<(u64, u64)> },
    Checkpoint { dev_id: u64 },
    Dump { dev_id: u64, since: u32, generation: String },
    /// send the daemon the request to detach the device
    Detach { dev_id: u64 },
    Kill,
    /// wait until the device's block node is gone
    AwaitGone { dev_id: u64 },
    RemoveMeta,
    StartWriters { path: String, slice: u64, seeds: Vec<u64> },
    Sleep { ms: u64 },
    StopWriters,
    ReadBacking,
    Shutdown,
}

/// What came of an action. A text says what went wrong.
pub enum Event {
    Finished { res: Result<(), String> },
    Wrote { off: u64, data: Vec<u8>, done: Result<(), String> },
    Image { image: Result<Vec<u8>, String> },
    /// what was read of the ranges, in order; where a read failed, everything
    /// before it
    Pieces { pieces: Vec<(u64, Vec<u8>)>, failed: Option<String> },
    Replied { reply: Result<String, String> },
    /// what the writers saw; where one did not come back, those before it
    Logs { logs: Vec<WriterLog>, failed: Option<String> },
}

/// Why the device is being attached; `was` is the history it had.
pub enum Purpose {
    Boot,
    Reattach { was: String },
    Recover { was: String },
    LoseMeta { was: String },
    Inflight { was: String, completed: u64, undefined: Vec<(u64, u64)> },
    Last,
}

/// What follows once the device is gone; `was` is the history it had.
pub enum Leave {
    Reattach { was: String },
    LoseMeta { was: String },
    Recover { was: String },
    CollectWriters { was: String },
    ReadImage,
    ShutDown,
}

/// What follows once the device is gone.
pub enum LeaveView {
    Reattach { was: Seq<char> },
    LoseMeta { was: Seq<char> },
    Recover { was: Seq<char> },
    CollectWriters { was: Seq<char> },
    ReadImage,
    ShutDown,
}

impl View for Leave {
    type V = LeaveView;

    open spec fn view(&self) -> LeaveView {
        match *self {
            Leave::Reattach { was } => LeaveView::Reattach { was: was@ },
            Leave::LoseMeta { was } => LeaveView::LoseMeta { was: was@ },
            Leave::Recover { was } => LeaveView::Recover { was: was@ },
            Leave::CollectWriters { was } => LeaveView::CollectWriters { was: was@ },
            Leave::ReadImage => LeaveView::ReadImage,
            Leave::ShutDown => LeaveView::ShutDown,
        }
    }
}

/// Where an operation stands.
pub enum Phase {
    /// writing: so many of the burst's writes are left
    Burst { count: u64, left: u64 },
    CheckpointOnly,
    /// backup: taking the checkpoint
    Closing { last: bool, dev_id: u64 },
    /// backup: asking what changed
    Asking { last: bool, closed: u32 },
    /// backup: copying what changed; `broken` says what was wrong with the
    /// range after these
    Copying { last: bool, closed: u32, ranges: usize, broken: Option<String> },
    /// backup: copying everything
    CopyingAll { last: bool, closed: u32 },
    /// backup: reading the device for the check
    Checking { last: bool },
    /// waiting for the daemon
    Starting { purpose: Purpose },
    Attaching { purpose: Purpose },
    Opening { purpose: Purpose, recovered: Option<bool> },
    /// the device is being detached, or the daemon killed
    Leaving { leave: Leave },
    /// the block node is on its way out
    Vanishing { leave: Leave },
    RemovingMeta { was: String },
    /// trying the cursor of a history that was lost
    TryingCursor,
    WritersStarting { was: String },
    WritersRunning { was: String },
    WritersStopping { was: String },
    /// reading the ranges that writes were interrupted on
    Adopting { completed: u64, interrupted: u64 },
    /// reading the device after that
    Surviving { completed: u64, interrupted: u64 },
    ReadingBacking,
    ShuttingDown,
}

/// What follows.
pub enum Next {
    Do { action: Action, phase: Phase },
    Done,
    Fail { why: String },
}

/// The words for a write that failed.
pub open spec fn write_failed(len: nat, off: nat, cause: Seq<char>) -> Seq<char> {
    "write "@ + decimal(len) + "B at "@ + decimal(off) + ": "@ + cause
}

/// The next write of a burst.
pub open spec fn writes_next(
    ep: Episode,
    rng: u64,
    count: u64,
    left: u64,
    rng_after: u64,
    next: Next,
) -> bool {
    &&& next matches Next::Do {
        action: Action::Write { off, data },
        phase: Phase::Burst { count: c, left: l },
    } && off == write_off(0, ep.size, rng) && data@ == write_data(0, ep.size, rng) && c == count
        && l == left
    &&& rng_after == after_write(0, ep.size, rng)
}

/// A backup begins with a checkpoint.
pub open spec fn backs_up(ep: Episode, last: bool, next: Next) -> bool {
    match ep.dev_id {
        Some(id) => next matches Next::Do {
            action: Action::Checkpoint { dev_id },
            phase: Phase::Closing { last: l, dev_id: d },
        } && dev_id == id && d == id && l == last,
        None => next matches Next::Fail { why } && why@ == "not attached"@,
    }
}

/// A crash begins with the kill.
pub open spec fn kills(ep: Episode, next: Next) -> bool {
    next matches Next::Do { action: Action::Kill, phase: Phase::Leaving { leave } } && leave@
        == (LeaveView::Recover { was: ep.generation })
}

/// The device can be split among the writers.
pub open spec fn sends_writers(ep: Episode, rng: u64, rng_after: u64, next: Next) -> bool {
    match ep.dev_id {
        Some(id) => {
            &&& next matches Next::Do {
                action: Action::StartWriters { path, slice, seeds },
                phase: Phase::WritersStarting { was },
            } && path@ == crate::ublk::bdev(id as nat) && slice == slice_of(ep.size) && seeds@
                == Seq::new(WRITERS as nat, |t: int| draw(rng, t as nat)) && was@ == ep.generation
            &&& rng_after == advance_by(rng, WRITERS as nat)
        },
        None => (next matches Next::Fail { why } && why@ == "not attached"@) && rng_after == rng,
    }
}

/// Detaching begins with the request.
pub open spec fn detaches(ep: Episode, leave: LeaveView, next: Next) -> bool {
    match ep.dev_id {
        Some(id) => next matches Next::Do {
            action: Action::Detach { dev_id },
            phase: Phase::Leaving { leave: l },
        } && dev_id == id && l@ == leave,
        None => next matches Next::Fail { why } && why@ == "not attached"@,
    }
}

/// An operation can stand at this phase.
pub open spec fn stands(ep: Episode, phase: Phase) -> bool {
    match phase {
        Phase::Burst { left, .. } => left > 0,
        Phase::Asking { .. } => ep.cursor is Some,
        Phase::Copying { .. } => ep.cursor is Some,
        _ => true,
    }
}

/// How a task begins.
pub open spec fn begins(ep: Episode, rng: u64, task: Task, rng_after: u64, next: Next) -> bool {
    match task {
        Task::Boot => (next matches Next::Do {
            action: Action::StartDaemon,
            phase: Phase::Starting { purpose: Purpose::Boot },
        }) && rng_after == rng,
        Task::WindDown => backs_up(ep, true, next) && rng_after == rng,
        Task::Op { op: Op::WriteBurst } => writes_next(
            ep,
            advance(rng),
            (1 + scramble(advance(rng)) % 24) as u64,
            (1 + scramble(advance(rng)) % 24) as u64,
            rng_after,
            next,
        ),
        Task::Op { op: Op::BackupVerify } => backs_up(ep, false, next) && rng_after == rng,
        Task::Op { op: Op::Checkpoint } => rng_after == rng && match ep.dev_id {
            Some(id) => next matches Next::Do {
                action: Action::Checkpoint { dev_id },
                phase: Phase::CheckpointOnly,
            } && dev_id == id,
            None => next matches Next::Fail { why } && why@ == "not attached"@,
        },
        Task::Op { op: Op::Reattach } => rng_after == rng && detaches(
            ep,
            LeaveView::Reattach { was: ep.generation },
            next,
        ),
        Task::Op { op: Op::LoseMeta } => rng_after == rng && detaches(
            ep,
            LeaveView::LoseMeta { was: ep.generation },
            next,
        ),
        Task::Op { op: Op::Crash } => rng_after == rng && kills(ep, next),
        Task::Op { op: Op::CrashInflight } => if slice_of(ep.size) == 0 {
            rng_after == rng && kills(ep, next)
        } else {
            sends_writers(ep, rng, rng_after, next)
        },
    }
}

impl Harness {
    /// The next write of a burst.
    fn write_next(&self, rng: &mut Rng, count: u64, left: u64) -> (next: Next)
        requires
            self@.wf(),
        ensures
            writes_next(self@, old(rng).0, count, left, final(rng).0, next),
    {
        let (off, data) = random_write(rng, 0, self.size);
        Next::Do { action: Action::Write { off, data }, phase: Phase::Burst { count, left } }
    }

    /// A backup begins with a checkpoint.
    fn back_up(&self, last: bool) -> (next: Next)
        ensures
            backs_up(self@, last, next),
    {
        match self.dev_id {
            Some(dev_id) => Next::Do {
                action: Action::Checkpoint { dev_id },
                phase: Phase::Closing { last, dev_id },
            },
            None => Next::Fail { why: "not attached".to_owned() },
        }
    }

    /// Detaching begins with the request.
    fn detach(&self, leave: Leave) -> (next: Next)
        ensures
            detaches(self@, leave@, next),
    {
        match self.dev_id {
            Some(dev_id) => Next::Do {
                action: Action::Detach { dev_id },
                phase: Phase::Leaving { leave },
            },
            None => Next::Fail { why: "not attached".to_owned() },
        }
    }

    /// How a task begins.
    pub fn begin(&self, rng: &mut Rng, task: Task) -> (next: Next)
        requires
            self@.wf(),
        ensures
            begins(self@, old(rng).0, task, final(rng).0, next),
            next matches Next::Do { phase, .. } ==> stands(self@, phase),
    {
        match task {
            Task::Boot => Next::Do {
                action: Action::StartDaemon,
                phase: Phase::Starting { purpose: Purpose::Boot },
            },
            Task::WindDown => self.back_up(true),
            Task::Op { op } => match op {
                Op::WriteBurst => {
                    let count: u64 = burst_size(rng);
                    self.write_next(rng, count, count)
                },
                Op::BackupVerify => self.back_up(false),
                Op::Checkpoint => match self.dev_id {
                    Some(dev_id) => Next::Do {
                        action: Action::Checkpoint { dev_id },
                        phase: Phase::CheckpointOnly,
                    },
                    None => Next::Fail { why: "not attached".to_owned() },
                },
                Op::Reattach => self.detach(Leave::Reattach { was: self.generation.clone() }),
                Op::LoseMeta => self.detach(Leave::LoseMeta { was: self.generation.clone() }),
                Op::Crash => Next::Do {
                    action: Action::Kill,
                    phase: Phase::Leaving { leave: Leave::Recover { was: self.generation.clone() } },
                },
                Op::CrashInflight => {
                    if self.size / WRITERS / 4096 * 4096 == 0 {
                        return Next::Do {
                            action: Action::Kill,
                            phase: Phase::Leaving { leave: Leave::Recover { was: self.generation.clone() } },
                        };
                    }
                    match self.bdev() {
                        Err(why) => Next::Fail { why },
                        Ok(path) => match self.plan_inflight(rng) {
                            Some(plan) => Next::Do {
                                action: Action::StartWriters {
                                    path,
                                    slice: plan.slice,
                                    seeds: plan.seeds,
                                },
                                phase: Phase::WritersStarting { was: self.generation.clone() },
                            },
                            None => Next::Fail { why: "not attached".to_owned() },
                        },
                    }
                },
            },
        }
    }
}

/// The operation fails for a reason.
pub open spec fn fails(next: Next, why: Seq<char>) -> bool {
    next matches Next::Fail { why: w } && w@ == why
}

/// The total number of bytes in the pieces.
pub open spec fn piece_bytes(pieces: Seq<(u64, Vec<u8>)>) -> nat {
    crate::model::entry_bytes(entry_views(pieces))
}

/// Every piece lies on the device.
pub open spec fn pieces_fit(pieces: Seq<(u64, Vec<u8>)>, size: u64) -> bool {
    forall|k: int|
        0 <= k < pieces.len() ==> (#[trigger] pieces[k]).0 + pieces[k].1@.len() <= size
}

/// The writes that completed, over all writers.
pub open spec fn total_ok(logs: Seq<WriterLog>) -> nat
    decreases logs.len(),
{
    if logs.len() == 0 {
        0
    } else {
        total_ok(logs.drop_last()) + logs.last().ok@.len()
    }
}

/// The ranges that writes were interrupted on, over all writers.
pub open spec fn all_undefined(logs: Seq<WriterLog>) -> Seq<(u64, u64)>
    decreases logs.len(),
{
    if logs.len() == 0 {
        Seq::empty()
    } else {
        all_undefined(logs.drop_last()) + logs.last().undefined@
    }
}

/// The image after what all writers saw complete.
pub open spec fn replayed(base: Seq<u8>, logs: Seq<WriterLog>) -> Seq<u8>
    decreases logs.len(),
{
    if logs.len() == 0 {
        base
    } else {
        layered(replayed(base, logs.drop_last()), entry_views(logs.last().ok@))
    }
}

/// The writes in the logs lie on the device, and their number can be counted;
/// where all writers came back, it is added to the counters.
pub open spec fn logs_fit(ep: Episode, logs: Seq<WriterLog>, all: bool) -> bool {
    &&& forall|k: int| 0 <= k < logs.len() ==> pieces_fit((#[trigger] logs[k]).ok@, ep.size)
    &&& total_ok(logs) <= u64::MAX
    &&& all ==> ep.n.has_room(total_ok(logs) as int)
}

/// The event is one that the phase can come to.
pub open spec fn can_come(ep: Episode, phase: Phase, event: Event) -> bool {
    match phase {
        Phase::Burst { .. } => event matches Event::Wrote { off, data, .. } && off + data@.len()
            <= ep.size,
        Phase::CheckpointOnly => event is Replied,
        Phase::Closing { .. } => event is Replied,
        Phase::Asking { .. } => event is Replied,
        Phase::Attaching { .. } => event is Replied,
        Phase::TryingCursor => event is Replied,
        Phase::Copying { .. } => event matches Event::Pieces { pieces, .. } && pieces_fit(
            pieces@,
            ep.size,
        ) && piece_bytes(pieces@) <= u64::MAX,
        Phase::Adopting { .. } => event matches Event::Pieces { pieces, .. } && pieces_fit(
            pieces@,
            ep.size,
        ),
        Phase::CopyingAll { .. } => event matches Event::Image { image } && (image matches Ok(img)
            ==> img@.len() == ep.size),
        Phase::Checking { .. } => event matches Event::Image { image } && (image matches Ok(img)
            ==> img@.len() == ep.size),
        Phase::Surviving { interrupted, .. } => (event matches Event::Image { image } && (
        image matches Ok(img) ==> img@.len() == ep.size)) && ep.n.has_room(interrupted as int),
        Phase::ReadingBacking => event is Image,
        Phase::WritersStopping { .. } => event matches Event::Logs { logs, failed } && logs_fit(
            ep,
            logs@,
            failed is None,
        ),
        _ => event is Finished,
    }
}

/// A write of a burst came back.
pub open spec fn after_wrote(
    ep: Episode,
    rng: u64,
    count: u64,
    left: u64,
    off: u64,
    data: Seq<u8>,
    done: Result<(), String>,
    ep2: Episode,
    rng2: u64,
    next: Next,
) -> bool {
    let written = Episode {
        expected: overwritten(ep.expected, off as int, data),
        n: Counters { writes: (ep.n.writes + 1) as u64, ..ep.n },
        ..ep
    };
    match done {
        Err(e) => ep2 == ep && rng2 == rng && fails(
            next,
            write_failed(data.len(), off as nat, e@),
        ),
        Ok(_) => if left == 1 {
            &&& ep2 == (Episode {
                n: Counters { bursts: (ep.n.bursts + 1) as u64, ..written.n },
                ..written
            }).noted("write burst: "@ + decimal(count as nat) + " writes"@)
            &&& rng2 == rng
            &&& next is Done
        } else {
            ep2 == written && writes_next(written, rng, count, (left - 1) as u64, rng2, next)
        },
    }
}

/// The checkpoint of a backup was taken.
pub open spec fn after_closing(
    ep: Episode,
    last: bool,
    dev_id: u64,
    reply: Result<String, String>,
    ep2: Episode,
    next: Next,
) -> bool {
    match reply {
        Err(e) => ep2 == ep && fails(next, e@),
        Ok(text) => match closed_of(json_u64(text@, "closed_era"@)) {
            Err(why) => ep2 == ep && fails(next, why),
            Ok(closed) => {
                &&& ep2 == (Episode {
                    n: Counters { checkpoints: (ep.n.checkpoints + 1) as u64, ..ep.n },
                    ..ep
                })
                &&& match ep.cursor {
                    Some((generation, era)) => next matches Next::Do {
                        action: Action::Dump { dev_id: d, since, generation: g },
                        phase: Phase::Asking { last: l, closed: c },
                    } && d == dev_id && since == era && g@ == generation && l == last && c
                        == closed,
                    None => next matches Next::Do {
                        action: Action::ReadAll,
                        phase: Phase::CopyingAll { last: l, closed: c },
                    } && l == last && c == closed,
                }
            },
        },
    }
}

/// The daemon answered what changed, or rejected the cursor.
pub open spec fn after_asking(
    ep: Episode,
    last: bool,
    closed: u32,
    reply: Result<String, String>,
    ep2: Episode,
    next: Next,
) -> bool {
    match reply {
        Err(e) => {
            &&& ep2 == ep.noted("backup: cursor rejected ("@ + e@ + "), full copy"@)
            &&& next matches Next::Do {
                action: Action::ReadAll,
                phase: Phase::CopyingAll { last: l, closed: c },
            } && l == last && c == closed
        },
        Ok(text) => ep2 == ep && {
            let found = found_ranges(text@);
            match found.1 {
                Some(why) if found.0.len() == 0 => fails(next, why),
                _ => next matches Next::Do {
                    action: Action::ReadRanges { ranges },
                    phase: Phase::Copying { last: l, closed: c, ranges: r, broken },
                } && ranges@ == found.0 && l == last && c == closed && r == found.0.len()
                    && opt_view(broken) == found.1,
            }
        },
    }
}

/// The episode with a backup complete up to `closed`.
pub open spec fn backed_up(ep: Episode, closed: u32) -> Episode {
    Episode {
        cursor: Some((ep.generation, closed)),
        n: Counters { backups: (ep.n.backups + 1) as u64, ..ep.n },
        ..ep
    }
}

/// The device is read for the check of a backup.
pub open spec fn checks(last: bool, next: Next) -> bool {
    next matches Next::Do { action: Action::ReadAll, phase: Phase::Checking { last: l } } && l
        == last
}

/// What changed was read, as far as that went: it is copied, and the backup
/// is complete if nothing was wrong.
pub open spec fn after_copying(
    ep: Episode,
    last: bool,
    closed: u32,
    ranges: usize,
    broken: Option<String>,
    pieces: Seq<(u64, Vec<u8>)>,
    failed: Option<String>,
    ep2: Episode,
    next: Next,
) -> bool {
    let copied = Episode { shadow: layered(ep.shadow, entry_views(pieces)), ..ep };
    match (failed, broken) {
        (Some(e), _) => ep2 == copied && fails(next, e@),
        (None, Some(e)) => ep2 == copied && fails(next, e@),
        (None, None) => {
            &&& ep2 == backed_up(
                copied.noted(incremental_note(ep.cursor, ranges as nat, piece_bytes(pieces))),
                closed,
            )
            &&& checks(last, next)
        },
    }
}

/// The whole device was read.
pub open spec fn after_copying_all(
    ep: Episode,
    last: bool,
    closed: u32,
    image: Result<Vec<u8>, String>,
    ep2: Episode,
    next: Next,
) -> bool {
    match image {
        Err(e) => ep2 == ep && fails(next, e@),
        Ok(img) => {
            let copied = Episode {
                shadow: img@,
                n: Counters { full_copies: (ep.n.full_copies + 1) as u64, ..ep.n },
                ..ep
            };
            &&& ep2 == backed_up(
                if needs_note(ep.journal) {
                    copied.noted("backup: full copy (no cursor)"@)
                } else {
                    copied
                },
                closed,
            )
            &&& checks(last, next)
        },
    }
}

/// The device was read for the check: both invariants decide.
pub open spec fn after_checking(
    ep: Episode,
    last: bool,
    image: Result<Vec<u8>, String>,
    next: Next,
) -> bool {
    match image {
        Err(e) => fails(next, e@),
        Ok(img) => if img@ != ep.expected {
            exists|first: int| #[trigger]
                first_difference(img@, ep.expected, first) && fails(
                    next,
                    mismatch(
                        "passthrough (device vs expected)"@,
                        img@,
                        ep.expected,
                        ep.gran,
                        first,
                    ),
                )
        } else if img@ != ep.shadow {
            exists|first: int| #[trigger]
                first_difference(img@, ep.shadow, first) && fails(
                    next,
                    mismatch("CBT (backup image vs device)"@, img@, ep.shadow, ep.gran, first),
                )
        } else if last {
            detaches(ep, LeaveView::ReadImage, next)
        } else {
            next is Done
        },
    }
}

/// Two purposes say the same.
pub open spec fn same_purpose(a: Purpose, b: Purpose) -> bool {
    match (a, b) {
        (Purpose::Boot, Purpose::Boot) => true,
        (Purpose::Last, Purpose::Last) => true,
        (Purpose::Reattach { was: x }, Purpose::Reattach { was: y }) => x@ == y@,
        (Purpose::Recover { was: x }, Purpose::Recover { was: y }) => x@ == y@,
        (Purpose::LoseMeta { was: x }, Purpose::LoseMeta { was: y }) => x@ == y@,
        (
            Purpose::Inflight { was: x, completed: c, undefined: u },
            Purpose::Inflight { was: y, completed: d, undefined: v },
        ) => x@ == y@ && c == d && u@ == v@,
        _ => false,
    }
}

/// The device is to be attached for a purpose.
pub open spec fn attaches(purpose: Purpose, next: Next) -> bool {
    next matches Next::Do { action: Action::Attach, phase: Phase::Attaching { purpose: p } }
        && same_purpose(p, purpose)
}

/// The daemon answered the request to attach.
pub open spec fn after_attaching(
    ep: Episode,
    purpose: Purpose,
    reply: Result<String, String>,
    ep2: Episode,
    next: Next,
) -> bool {
    match reply {
        Err(e) => ep2 == ep && fails(next, e@),
        Ok(text) => match (json_u64(text@, "dev_id"@), json_str(text@, "generation"@)) {
            (None, _) => ep2 == ep && fails(next, "add: no dev_id"@),
            (Some(id), None) => ep2 == (Episode { dev_id: Some(id), ..ep }) && fails(
                next,
                "add: no generation"@,
            ),
            (Some(id), Some(g)) => {
                &&& ep2 == (Episode { dev_id: Some(id), generation: g, ..ep })
                &&& next matches Next::Do {
                    action: Action::Open { path },
                    phase: Phase::Opening { purpose: p, recovered },
                } && path@ == crate::ublk::bdev(id as nat) && same_purpose(p, purpose) && recovered
                    == json_bool(text@, "recovered_unclean"@)
            },
        },
    }
}

/// The device is open: what it was attached for decides.
pub open spec fn after_opening(
    ep: Episode,
    purpose: Purpose,
    recovered: Option<bool>,
    res: Result<(), String>,
    ep2: Episode,
    next: Next,
) -> bool {
    match res {
        Err(e) => ep2 == ep && fails(next, e@),
        Ok(_) => match purpose {
            Purpose::Boot => ep2 == ep && next is Done,
            Purpose::Reattach { was } => if recovered == Some(true) {
                ep2 == ep && fails(next, "clean detach was flagged recovered_unclean"@)
            } else if ep.generation != was@ {
                ep2 == ep && fails(
                    next,
                    changed_note("clean re-attach"@, was@, ep.generation),
                )
            } else {
                ep2 == (Episode {
                    n: Counters { reattaches: (ep.n.reattaches + 1) as u64, ..ep.n },
                    ..ep
                }).noted("reattach: clean"@) && next is Done
            },
            Purpose::Recover { was } => if recovered != Some(true) {
                ep2 == ep && fails(next, "crash recovery not flagged recovered_unclean"@)
            } else if ep.generation != was@ {
                ep2 == ep && fails(next, changed_note("crash recovery"@, was@, ep.generation))
            } else {
                ep2 == (Episode {
                    n: Counters { crashes: (ep.n.crashes + 1) as u64, ..ep.n },
                    ..ep
                }).noted("crash: SIGKILL + recover (unclean flagged)"@) && next is Done
            },
            Purpose::LoseMeta { was } => if recovered == Some(true) {
                ep2 == ep && fails(
                    next,
                    "fresh attach after metadata loss was flagged recovered_unclean"@,
                )
            } else if ep.generation == was@ {
                ep2 == ep && fails(next, "generation must change when metadata is lost"@)
            } else {
                match (ep.cursor, ep.dev_id) {
                    (None, _) => ep2 == (Episode {
                        n: Counters { meta_losses: (ep.n.meta_losses + 1) as u64, ..ep.n },
                        ..ep
                    }).noted("meta loss: fresh generation, old cursor rejected"@) && next is Done,
                    (Some(_), None) => ep2 == ep && fails(next, "not attached"@),
                    (Some((generation, era)), Some(id)) => ep2 == ep && (next matches Next::Do {
                        action: Action::Dump { dev_id, since, generation: g },
                        phase: Phase::TryingCursor,
                    } && dev_id == id && since == era && g@ == generation),
                }
            },
            Purpose::Inflight { was, completed, undefined } => ep2 == ep && if recovered != Some(
                true,
            ) {
                fails(next, "in-flight crash recovery not flagged recovered_unclean"@)
            } else if ep.generation != was@ {
                fails(next, changed_note("in-flight crash"@, was@, ep.generation))
            } else {
                next matches Next::Do {
                    action: Action::ReadRanges { ranges },
                    phase: Phase::Adopting { completed: c, interrupted: i },
                } && ranges@ == undefined@ && c == completed && i == undefined@.len()
            },
            Purpose::Last => ep2 == ep && if recovered == Some(true) {
                fails(next, "final re-attach was flagged recovered_unclean"@)
            } else {
                detaches(ep, LeaveView::ShutDown, next)
            },
        },
    }
}

/// The device is gone: what it was left for decides.
pub open spec fn departs(leave: LeaveView, next: Next) -> bool {
    match leave {
        LeaveView::Reattach { was } => next matches Next::Do {
            action: Action::Attach,
            phase: Phase::Attaching { purpose: Purpose::Reattach { was: w } },
        } && w@ == was,
        LeaveView::LoseMeta { was } => next matches Next::Do {
            action: Action::RemoveMeta,
            phase: Phase::RemovingMeta { was: w },
        } && w@ == was,
        LeaveView::Recover { was } => next matches Next::Do {
            action: Action::StartDaemon,
            phase: Phase::Starting { purpose: Purpose::Recover { was: w } },
        } && w@ == was,
        LeaveView::CollectWriters { was } => next matches Next::Do {
            action: Action::StopWriters,
            phase: Phase::WritersStopping { was: w },
        } && w@ == was,
        LeaveView::ReadImage => next matches Next::Do {
            action: Action::ReadBacking,
            phase: Phase::ReadingBacking,
        },
        LeaveView::ShutDown => next matches Next::Do {
            action: Action::Shutdown,
            phase: Phase::ShuttingDown,
        },
    }
}

/// The device was detached, or the daemon killed: the device counts as gone
/// from here on, and its block node is waited for.
pub open spec fn after_leaving(
    ep: Episode,
    leave: LeaveView,
    res: Result<(), String>,
    ep2: Episode,
    next: Next,
) -> bool {
    match res {
        Err(e) => ep2 == ep && fails(next, e@),
        Ok(_) => ep2 == (Episode { dev_id: None, ..ep }) && match ep.dev_id {
            Some(id) => next matches Next::Do {
                action: Action::AwaitGone { dev_id },
                phase: Phase::Vanishing { leave: l },
            } && dev_id == id && l@ == leave,
            None => departs(leave, next),
        },
    }
}

/// The writers are back.
pub open spec fn after_writers(
    ep: Episode,
    was: Seq<char>,
    logs: Seq<WriterLog>,
    failed: Option<String>,
    ep2: Episode,
    next: Next,
) -> bool {
    let replay = Episode { expected: replayed(ep.expected, logs), ..ep };
    match failed {
        Some(e) => ep2 == replay && fails(next, e@),
        None => {
            &&& ep2 == (Episode {
                n: Counters { writes: (ep.n.writes + total_ok(logs)) as u64, ..ep.n },
                ..replay
            })
            &&& next matches Next::Do {
                action: Action::StartDaemon,
                phase: Phase::Starting {
                    purpose: Purpose::Inflight { was: w, completed, undefined },
                },
            } && w@ == was && completed == total_ok(logs) && undefined@ == all_undefined(logs)
        },
    }
}

/// The device was read after an in-flight crash: everything that the
/// application saw complete must have survived.
pub open spec fn after_surviving(
    ep: Episode,
    completed: u64,
    interrupted: u64,
    image: Result<Vec<u8>, String>,
    ep2: Episode,
    next: Next,
) -> bool {
    match image {
        Err(e) => ep2 == ep && fails(next, e@),
        Ok(img) => if img@ == ep.expected {
            &&& ep2 == (Episode {
                n: Counters {
                    inflight_crashes: (ep.n.inflight_crashes + 1) as u64,
                    interrupted: (ep.n.interrupted + interrupted) as u64,
                    ..ep.n
                },
                ..ep
            }).noted(
                "in-flight crash: "@ + decimal(completed as nat) + " completed writes survived, "@
                    + decimal(interrupted as nat) + " interrupted"@,
            )
            &&& next is Done
        } else {
            ep2 == ep && exists|first: int| #[trigger]
                first_difference(img@, ep.expected, first) && fails(
                    next,
                    mismatch(
                        "completed writes across in-flight SIGKILL"@,
                        img@,
                        ep.expected,
                        ep.gran,
                        first,
                    ),
                )
        },
    }
}

/// What follows from an event.
pub open spec fn resumes(
    ep: Episode,
    rng: u64,
    phase: Phase,
    event: Event,
    ep2: Episode,
    rng2: u64,
    next: Next,
) -> bool {
    match (phase, event) {
        (Phase::Burst { count, left }, Event::Wrote { off, data, done }) => after_wrote(
            ep,
            rng,
            count,
            left,
            off,
            data@,
            done,
            ep2,
            rng2,
            next,
        ),
        (Phase::CheckpointOnly, Event::Replied { reply }) => rng2 == rng && match reply {
            Err(e) => ep2 == ep && fails(next, e@),
            Ok(text) => ep2 == (Episode {
                n: Counters { checkpoints: (ep.n.checkpoints + 1) as u64, ..ep.n },
                ..ep
            }).noted(checkpoint_note(json_shown(text@, "closed_era"@))) && next is Done,
        },
        (Phase::Closing { last, dev_id }, Event::Replied { reply }) => rng2 == rng
            && after_closing(ep, last, dev_id, reply, ep2, next),
        (Phase::Asking { last, closed }, Event::Replied { reply }) => rng2 == rng && after_asking(
            ep,
            last,
            closed,
            reply,
            ep2,
            next,
        ),
        (
            Phase::Copying { last, closed, ranges, broken },
            Event::Pieces { pieces, failed },
        ) => rng2 == rng && after_copying(
            ep,
            last,
            closed,
            ranges,
            broken,
            pieces@,
            failed,
            ep2,
            next,
        ),
        (Phase::CopyingAll { last, closed }, Event::Image { image }) => rng2 == rng
            && after_copying_all(ep, last, closed, image, ep2, next),
        (Phase::Checking { last }, Event::Image { image }) => rng2 == rng && ep2 == ep
            && after_checking(ep, last, image, next),
        (Phase::Starting { purpose }, Event::Finished { res }) => rng2 == rng && ep2 == ep
            && match res {
            Err(e) => fails(next, e@),
            Ok(_) => attaches(purpose, next),
        },
        (Phase::Attaching { purpose }, Event::Replied { reply }) => rng2 == rng && after_attaching(
            ep,
            purpose,
            reply,
            ep2,
            next,
        ),
        (Phase::Opening { purpose, recovered }, Event::Finished { res }) => rng2 == rng
            && after_opening(ep, purpose, recovered, res, ep2, next),
        (Phase::Leaving { leave }, Event::Finished { res }) => rng2 == rng && after_leaving(
            ep,
            leave@,
            res,
            ep2,
            next,
        ),
        (Phase::Vanishing { leave }, Event::Finished { res }) => rng2 == rng && ep2 == ep
            && match res {
            Err(e) => fails(next, e@),
            Ok(_) => departs(leave@, next),
        },
        (Phase::RemovingMeta { was }, Event::Finished { res }) => rng2 == rng && ep2 == ep
            && match res {
            Err(e) => fails(next, "remove metadata: "@ + e@),
            Ok(_) => attaches(Purpose::LoseMeta { was }, next),
        },
        (Phase::TryingCursor, Event::Replied { reply }) => rng2 == rng && match reply {
            Ok(_) => ep2 == ep && fails(next, "cursor from the lost history was accepted by dump"@),
            Err(_) => ep2 == (Episode {
                n: Counters { meta_losses: (ep.n.meta_losses + 1) as u64, ..ep.n },
                ..ep
            }).noted("meta loss: fresh generation, old cursor rejected"@) && next is Done,
        },
        (Phase::WritersStarting { was }, Event::Finished { res }) => ep2 == ep && match res {
            Err(e) => rng2 == rng && fails(next, e@),
            Ok(_) => rng2 == advance(rng) && (next matches Next::Do {
                action: Action::Sleep { ms },
                phase: Phase::WritersRunning { was: w },
            } && ms == 50 + scramble(advance(rng)) % 250 && w@ == was@),
        },
        (Phase::WritersRunning { was }, Event::Finished { res }) => rng2 == rng && ep2 == ep
            && match res {
            Err(e) => fails(next, e@),
            Ok(_) => next matches Next::Do {
                action: Action::Kill,
                phase: Phase::Leaving { leave },
            } && leave@ == (LeaveView::CollectWriters { was: was@ }),
        },
        (Phase::WritersStopping { was }, Event::Logs { logs, failed }) => rng2 == rng
            && after_writers(ep, was@, logs@, failed, ep2, next),
        (Phase::Adopting { completed, interrupted }, Event::Pieces { pieces, failed }) => rng2
            == rng && ep2 == (Episode {
            expected: layered(ep.expected, entry_views(pieces@)),
            ..ep
        }) && match failed {
            Some(e) => fails(next, e@),
            None => next matches Next::Do {
                action: Action::ReadAll,
                phase: Phase::Surviving { completed: c, interrupted: i },
            } && c == completed && i == interrupted,
        },
        (Phase::Surviving { completed, interrupted }, Event::Image { image }) => rng2 == rng
            && after_surviving(ep, completed, interrupted, image, ep2, next),
        (Phase::ReadingBacking, Event::Image { image }) => rng2 == rng && ep2 == ep && match image {
            Err(e) => fails(next, e@),
            Ok(img) => if img@ == ep.expected {
                attaches(Purpose::Last, next)
            } else {
                fails(next, "backing file after detach differs from everything written"@)
            },
        },
        (Phase::ShuttingDown, Event::Finished { res }) => rng2 == rng && ep2 == ep && match res {
            Err(e) => fails(next, e@),
            Ok(_) => next is Done,
        },
        _ => false,
    }
}

/// The words for a write that failed.
fn complain_write(len: usize, off: u64, cause: &str) -> (t: String)
    ensures
        t@ == write_failed(len as nat, off as nat, cause@),
{
    let mut t: String = "write ".to_owned();
    push_decimal(&mut t, len as u64);
    t.append("B at ");
    push_decimal(&mut t, off);
    t.append(": ");
    t.append(cause);
    t
}

/// Put pieces onto an image, one after the other.
fn apply_all(image: &mut Vec<u8>, pieces: &Vec<(u64, Vec<u8>)>)
    requires
        old(image)@.len() <= u64::MAX,
        pieces_fit(pieces@, old(image)@.len() as u64),
    ensures
        final(image)@ == layered(old(image)@, entry_views(pieces@)),
        final(image)@.len() == old(image)@.len(),
{
    let ghost before = image@;
    let ghost entries = entry_views(pieces@);
    let n: usize = pieces.len();
    let mut i: usize = 0;
    proof {
        assert(entries.take(0) =~= Seq::empty());
    }
    while i < n
        invariant
            i <= n == pieces@.len(),
            entries == entry_views(pieces@),
            before.len() <= u64::MAX,
            pieces_fit(pieces@, before.len() as u64),
            image@ == layered(before, entries.take(i as int)),
            image@.len() == before.len(),
        decreases n - i,
    {
        proof {
            assert(entries.take(i + 1).drop_last() =~= entries.take(i as int));
            assert(entries.take(i + 1).last() == (pieces@[i as int].0, pieces@[i as int].1@));
            assert(pieces@[i as int].0 + pieces@[i as int].1@.len() <= before.len() as u64);
        }
        apply(image, pieces[i].0, &pieces[i].1);
        i = i + 1;
    }
    proof {
        assert(entries.take(n as int) =~= entries);
    }
}

/// The total number of bytes in the pieces.
fn count_bytes(pieces: &Vec<(u64, Vec<u8>)>) -> (total: u64)
    requires
        piece_bytes(pieces@) <= u64::MAX,
    ensures
        total == piece_bytes(pieces@),
{
    let ghost entries = entry_views(pieces@);
    let n: usize = pieces.len();
    let mut total: u64 = 0;
    let mut i: usize = 0;
    proof {
        assert(entries.take(0) =~= Seq::empty());
    }
    while i < n
        invariant
            i <= n == pieces@.len(),
            entries == entry_views(pieces@),
            crate::model::entry_bytes(entries) <= u64::MAX,
            total == crate::model::entry_bytes(entries.take(i as int)),
        decreases n - i,
    {
        proof {
            assert(entries.take(i + 1).drop_last() =~= entries.take(i as int));
            assert(entries.take(i + 1).last() == (pieces@[i as int].0, pieces@[i as int].1@));
            lemma_bytes_grow(entries, i + 1);
        }
        total = total + pieces[i].1.len() as u64;
        i = i + 1;
    }
    proof {
        assert(entries.take(n as int) =~= entries);
    }
    total
}

proof fn lemma_bytes_grow(entries: Seq<crate::model::Entry>, n: int)
    requires
        0 <= n <= entries.len(),
    ensures
        crate::model::entry_bytes(entries.take(n)) <= crate::model::entry_bytes(entries),
    decreases entries.len() - n,
{
    if n < entries.len() {
        lemma_bytes_grow(entries, n + 1);
        assert(entries.take(n + 1).drop_last() =~= entries.take(n));
    } else {
        assert(entries.take(n) =~= entries);
    }
}

proof fn lemma_ok_grows(logs: Seq<WriterLog>, n: int)
    requires
        0 <= n <= logs.len(),
    ensures
        total_ok(logs.take(n)) <= total_ok(logs),
    decreases logs.len() - n,
{
    if n < logs.len() {
        lemma_ok_grows(logs, n + 1);
        assert(logs.take(n + 1).drop_last() =~= logs.take(n));
    } else {
        assert(logs.take(n) =~= logs);
    }
}

/// The device is gone: what it was left for decides.
fn depart(leave: Leave) -> (next: Next)
    ensures
        departs(leave@, next),
        next matches Next::Do { phase, .. } ==> forall|ep: Episode| #[trigger] stands(ep, phase),
{
    match leave {
        Leave::Reattach { was } => Next::Do {
            action: Action::Attach,
            phase: Phase::Attaching { purpose: Purpose::Reattach { was } },
        },
        Leave::LoseMeta { was } => Next::Do {
            action: Action::RemoveMeta,
            phase: Phase::RemovingMeta { was },
        },
        Leave::Recover { was } => Next::Do {
            action: Action::StartDaemon,
            phase: Phase::Starting { purpose: Purpose::Recover { was } },
        },
        Leave::CollectWriters { was } => Next::Do {
            action: Action::StopWriters,
            phase: Phase::WritersStopping { was },
        },
        Leave::ReadImage => Next::Do {
            action: Action::ReadBacking,
            phase: Phase::ReadingBacking,
        },
        Leave::ShutDown => Next::Do { action: Action::Shutdown, phase: Phase::ShuttingDown },
    }
}

/// Put ranges behind others.
fn push_ranges(all: &mut Vec<(u64, u64)>, more: &Vec<(u64, u64)>)
    ensures
        final(all)@ == old(all)@ + more@,
{
    let ghost before = all@;
    let n: usize = more.len();
    let mut i: usize = 0;
    while i < n
        invariant
            i <= n == more@.len(),
            all@ == before + more@.take(i as int),
        decreases n - i,
    {
        all.push(more[i]);
        i = i + 1;
    }
    assert(more@.take(n as int) =~= more@);
}

/// A copy of a cursor.
fn copy_cursor(cursor: &Option<(String, u32)>) -> (copy: Option<(String, u32)>)
    ensures
        cursor_view(copy) == cursor_view(*cursor),
{
    match cursor {
        Some((generation, era)) => Some((generation.clone(), *era)),
        None => None,
    }
}

impl Harness {
    fn on_wrote(
        &mut self,
        rng: &mut Rng,
        count: u64,
        left: u64,
        off: u64,
        data: &Vec<u8>,
        done: Result<(), String>,
    ) -> (next: Next)
        requires
            old(self)@.wf(),
            old(self)@.n.has_room(1),
            off + data@.len() <= old(self)@.size,
            left > 0,
        ensures
            final(self)@.wf(),
            after_wrote(
                old(self)@,
                old(rng).0,
                count,
                left,
                off,
                data@,
                done,
                final(self)@,
                final(rng).0,
                next,
            ),
    {
        match done {
            Err(e) => Next::Fail { why: complain_write(data.len(), off, &e) },
            Ok(_) => {
                self.write_done(off, data);
                if left == 1 {
                    self.burst_done(count);
                    Next::Done
                } else {
                    self.write_next(rng, count, left - 1)
                }
            },
        }
    }

    fn on_closing(&mut self, last: bool, dev_id: u64, reply: Result<String, String>) -> (next: Next)
        requires
            old(self)@.wf(),
            old(self)@.n.has_room(1),
        ensures
            final(self)@.wf(),
            after_closing(old(self)@, last, dev_id, reply, final(self)@, next),
    {
        let text: String = match reply {
            Ok(text) => text,
            Err(why) => {
                return Next::Fail { why };
            },
        };
        let closed: u32 = match closed_era(reply_closed_era(&text)) {
            Ok(closed) => closed,
            Err(why) => {
                return Next::Fail { why };
            },
        };
        self.backup_begins();
        match copy_cursor(&self.cursor) {
            Some((generation, since)) => Next::Do {
                action: Action::Dump { dev_id, since, generation },
                phase: Phase::Asking { last, closed },
            },
            None => Next::Do {
                action: Action::ReadAll,
                phase: Phase::CopyingAll { last, closed },
            },
        }
    }

    fn on_asking(&mut self, last: bool, closed: u32, reply: Result<String, String>) -> (next: Next)
        requires
            old(self)@.wf(),
        ensures
            final(self)@.wf(),
            after_asking(old(self)@, last, closed, reply, final(self)@, next),
    {
        match reply {
            Err(e) => {
                self.cursor_rejected(&e);
                Next::Do { action: Action::ReadAll, phase: Phase::CopyingAll { last, closed } }
            },
            Ok(text) => {
                let (ranges, broken) = diff_ranges(&text);
                match broken {
                    Some(why) if ranges.len() == 0 => Next::Fail { why },
                    broken => {
                        let count: usize = ranges.len();
                        Next::Do {
                            action: Action::ReadRanges { ranges },
                            phase: Phase::Copying { last, closed, ranges: count, broken },
                        }
                    },
                }
            },
        }
    }

    fn on_copying(
        &mut self,
        last: bool,
        closed: u32,
        ranges: usize,
        broken: Option<String>,
        pieces: Vec<(u64, Vec<u8>)>,
        failed: Option<String>,
    ) -> (next: Next)
        requires
            old(self)@.wf(),
            old(self)@.n.has_room(1),
            old(self)@.cursor is Some,
            pieces_fit(pieces@, old(self)@.size),
            piece_bytes(pieces@) <= u64::MAX,
        ensures
            final(self)@.wf(),
            after_copying(
                old(self)@,
                last,
                closed,
                ranges,
                broken,
                pieces@,
                failed,
                final(self)@,
                next,
            ),
    {
        apply_all(&mut self.shadow, &pieces);
        if let Some(why) = failed {
            return Next::Fail { why };
        }
        if let Some(why) = broken {
            return Next::Fail { why };
        }
        let copied: u64 = count_bytes(&pieces);
        self.incremental_done(ranges, copied);
        self.backup_ends(closed);
        Next::Do { action: Action::ReadAll, phase: Phase::Checking { last } }
    }

    fn on_copying_all(
        &mut self,
        last: bool,
        closed: u32,
        image: Result<Vec<u8>, String>,
    ) -> (next: Next)
        requires
            old(self)@.wf(),
            old(self)@.n.has_room(1),
            image matches Ok(img) ==> img@.len() == old(self)@.size,
        ensures
            final(self)@.wf(),
            after_copying_all(old(self)@, last, closed, image, final(self)@, next),
    {
        match image {
            Err(why) => Next::Fail { why },
            Ok(img) => {
                self.full_copy(img);
                self.backup_ends(closed);
                Next::Do { action: Action::ReadAll, phase: Phase::Checking { last } }
            },
        }
    }

    fn on_checking(&self, last: bool, image: Result<Vec<u8>, String>) -> (next: Next)
        requires
            self@.wf(),
            image matches Ok(img) ==> img@.len() == self@.size,
        ensures
            after_checking(self@, last, image, next),
    {
        match image {
            Err(why) => Next::Fail { why },
            Ok(img) => match self.verify(&img) {
                Err(why) => Next::Fail { why },
                Ok(_) => if last {
                    self.detach(Leave::ReadImage)
                } else {
                    Next::Done
                },
            },
        }
    }

    fn on_attaching(&mut self, purpose: Purpose, reply: Result<String, String>) -> (next: Next)
        requires
            old(self)@.wf(),
        ensures
            final(self)@.wf(),
            after_attaching(old(self)@, purpose, reply, final(self)@, next),
    {
        let text: String = match reply {
            Ok(text) => text,
            Err(why) => {
                return Next::Fail { why };
            },
        };
        if let Err(why) = self.attach_reply(&text) {
            return Next::Fail { why };
        }
        match self.bdev() {
            Ok(path) => Next::Do {
                action: Action::Open { path },
                phase: Phase::Opening { purpose, recovered: reply_recovered(&text) },
            },
            Err(why) => Next::Fail { why },
        }
    }

    fn on_opening(
        &mut self,
        purpose: Purpose,
        recovered: Option<bool>,
        res: Result<(), String>,
    ) -> (next: Next)
        requires
            old(self)@.wf(),
            old(self)@.n.has_room(1),
        ensures
            final(self)@.wf(),
            after_opening(old(self)@, purpose, recovered, res, final(self)@, next),
    {
        if let Err(why) = res {
            return Next::Fail { why };
        }
        match purpose {
            Purpose::Boot => Next::Done,
            Purpose::Reattach { was } => match self.reattached(&was, recovered) {
                Ok(_) => Next::Done,
                Err(why) => Next::Fail { why },
            },
            Purpose::Recover { was } => match self.recovered(&was, recovered) {
                Ok(_) => Next::Done,
                Err(why) => Next::Fail { why },
            },
            Purpose::LoseMeta { was } => match self.meta_lost(&was, recovered) {
                Err(why) => Next::Fail { why },
                Ok(None) => match self.meta_loss_done(false) {
                    Ok(_) => Next::Done,
                    Err(why) => Next::Fail { why },
                },
                Ok(Some((generation, since))) => match self.dev_id {
                    Some(dev_id) => Next::Do {
                        action: Action::Dump { dev_id, since, generation },
                        phase: Phase::TryingCursor,
                    },
                    None => Next::Fail { why: "not attached".to_owned() },
                },
            },
            Purpose::Inflight { was, completed, undefined } => match self.inflight_recovered(
                &was,
                recovered,
            ) {
                Err(why) => Next::Fail { why },
                Ok(_) => {
                    let interrupted: u64 = undefined.len() as u64;
                    Next::Do {
                        action: Action::ReadRanges { ranges: undefined },
                        phase: Phase::Adopting { completed, interrupted },
                    }
                },
            },
            Purpose::Last => match self.final_attach(recovered) {
                Err(why) => Next::Fail { why },
                Ok(_) => self.detach(Leave::ShutDown),
            },
        }
    }

    fn on_leaving(&mut self, leave: Leave, res: Result<(), String>) -> (next: Next)
        requires
            old(self)@.wf(),
        ensures
            final(self)@.wf(),
            after_leaving(old(self)@, leave@, res, final(self)@, next),
            next matches Next::Do { phase: p, .. } ==> stands(final(self)@, p),
    {
        if let Err(why) = res {
            return Next::Fail { why };
        }
        match self.detached() {
            Some(dev_id) => Next::Do {
                action: Action::AwaitGone { dev_id },
                phase: Phase::Vanishing { leave },
            },
            None => depart(leave),
        }
    }

    fn on_writers(
        &mut self,
        was: String,
        list: Vec<WriterLog>,
        failed: Option<String>,
    ) -> (next: Next)
        requires
            old(self)@.wf(),
            logs_fit(old(self)@, list@, failed is None),
        ensures
            final(self)@.wf(),
            after_writers(old(self)@, was@, list@, failed, final(self)@, next),
    {
        let ghost before = self@;
        let n: usize = list.len();
        let mut completed: u64 = 0;
        let mut undefined: Vec<(u64, u64)> = Vec::new();
        let mut i: usize = 0;
        proof {
            assert(list@.take(0) =~= Seq::empty());
            assert(undefined@ =~= Seq::empty());
        }
        while i < n
            invariant
                i <= n == list@.len(),
                before.wf(),
                self@.wf(),
                self@ == (Episode { expected: self@.expected, ..before }),
                self@.expected == replayed(before.expected, list@.take(i as int)),
                total_ok(list@) <= u64::MAX,
                completed == total_ok(list@.take(i as int)),
                undefined@ == all_undefined(list@.take(i as int)),
                forall|k: int|
                    0 <= k < list@.len() ==> pieces_fit((#[trigger] list@[k]).ok@, before.size),
            decreases n - i,
        {
            proof {
                assert(list@.take(i + 1).drop_last() =~= list@.take(i as int));
                assert(list@.take(i + 1).last() == list@[i as int]);
                lemma_ok_grows(list@, i + 1);
                assert(pieces_fit(list@[i as int].ok@, before.size));
            }
            let count: u64 = self.replay(&list[i].ok);
            completed = completed + count;
            push_ranges(&mut undefined, &list[i].undefined);
            i = i + 1;
        }
        proof {
            assert(list@.take(n as int) =~= list@);
        }
        if let Some(why) = failed {
            return Next::Fail { why };
        }
        self.writers_back(completed);
        Next::Do {
            action: Action::StartDaemon,
            phase: Phase::Starting { purpose: Purpose::Inflight { was, completed, undefined } },
        }
    }

    /// What follows from the outcome of an action that an operation asked for.
    pub fn resume(&mut self, rng: &mut Rng, phase: Phase, event: Event) -> (next: Next)
        requires
            old(self)@.wf(),
            old(self)@.n.has_room(1),
            stands(old(self)@, phase),
            can_come(old(self)@, phase, event),
        ensures
            final(self)@.wf(),
            next matches Next::Do { phase: p, .. } ==> stands(final(self)@, p),
            resumes(
                old(self)@,
                old(rng).0,
                phase,
                event,
                final(self)@,
                final(rng).0,
                next,
            ),
    {
        match (phase, event) {
            (Phase::Burst { count, left }, Event::Wrote { off, data, done }) => self.on_wrote(
                rng,
                count,
                left,
                off,
                &data,
                done,
            ),
            (Phase::CheckpointOnly, Event::Replied { reply }) => match reply {
                Err(why) => Next::Fail { why },
                Ok(text) => {
                    self.checkpoint_done(reply_closed_shown(&text));
                    Next::Done
                },
            },
            (Phase::Closing { last, dev_id }, Event::Replied { reply }) => self.on_closing(
                last,
                dev_id,
                reply,
            ),
            (Phase::Asking { last, closed }, Event::Replied { reply }) => self.on_asking(
                last,
                closed,
                reply,
            ),
            (
                Phase::Copying { last, closed, ranges, broken },
                Event::Pieces { pieces, failed },
            ) => self.on_copying(last, closed, ranges, broken, pieces, failed),
            (Phase::CopyingAll { last, closed }, Event::Image { image }) => self.on_copying_all(
                last,
                closed,
                image,
            ),
            (Phase::Checking { last }, Event::Image { image }) => self.on_checking(last, image),
            (Phase::Starting { purpose }, Event::Finished { res }) => match res {
                Err(why) => Next::Fail { why },
                Ok(_) => Next::Do {
                    action: Action::Attach,
                    phase: Phase::Attaching { purpose },
                },
            },
            (Phase::Attaching { purpose }, Event::Replied { reply }) => self.on_attaching(
                purpose,
                reply,
            ),
            (Phase::Opening { purpose, recovered }, Event::Finished { res }) => self.on_opening(
                purpose,
                recovered,
                res,
            ),
            (Phase::Leaving { leave }, Event::Finished { res }) => self.on_leaving(leave, res),
            (Phase::Vanishing { leave }, Event::Finished { res }) => match res {
                Err(why) => Next::Fail { why },
                Ok(_) => depart(leave),
            },
            (Phase::RemovingMeta { was }, Event::Finished { res }) => match res {
                Err(e) => {
                    let mut why: String = "remove metadata: ".to_owned();
                    why.append(&e);
                    Next::Fail { why }
                },
                Ok(_) => Next::Do {
                    action: Action::Attach,
                    phase: Phase::Attaching { purpose: Purpose::LoseMeta { was } },
                },
            },
            (Phase::TryingCursor, Event::Replied { reply }) => match self.meta_loss_done(
                reply.is_ok(),
            ) {
                Ok(_) => Next::Done,
                Err(why) => Next::Fail { why },
            },
            (Phase::WritersStarting { was }, Event::Finished { res }) => match res {
                Err(why) => Next::Fail { why },
                Ok(_) => Next::Do {
                    action: Action::Sleep { ms: inflight_delay(rng) },
                    phase: Phase::WritersRunning { was },
                },
            },
            (Phase::WritersRunning { was }, Event::Finished { res }) => match res {
                Err(why) => Next::Fail { why },
                Ok(_) => Next::Do {
                    action: Action::Kill,
                    phase: Phase::Leaving { leave: Leave::CollectWriters { was } },
                },
            },
            (Phase::WritersStopping { was }, Event::Logs { logs, failed }) => self.on_writers(
                was,
                logs,
                failed,
            ),
            (Phase::Adopting { completed, interrupted }, Event::Pieces { pieces, failed }) => {
                apply_all(&mut self.expected, &pieces);
                match failed {
                    Some(why) => Next::Fail { why },
                    None => Next::Do {
                        action: Action::ReadAll,
                        phase: Phase::Surviving { completed, interrupted },
                    },
                }
            },
            (Phase::Surviving { completed, interrupted }, Event::Image { image }) => match image {
                Err(why) => Next::Fail { why },
                Ok(img) => match self.inflight_done(&img, completed, interrupted) {
                    Err(why) => Next::Fail { why },
                    Ok(_) => Next::Done,
                },
            },
            (Phase::ReadingBacking, Event::Image { image }) => match image {
                Err(why) => Next::Fail { why },
                Ok(img) => match self.final_image(&img) {
                    Err(why) => Next::Fail { why },
                    Ok(_) => Next::Do {
                        action: Action::Attach,
                        phase: Phase::Attaching { purpose: Purpose::Last },
                    },
                },
            },
            (Phase::ShuttingDown, Event::Finished { res }) => match res {
                Err(why) => Next::Fail { why },
                Ok(_) => Next::Done,
            },
            _ => Next::Done,
        }
    }
}

impl Phase {
    /// The backup that winds an episode down is at work.
    pub open spec fn in_last_backup(self) -> bool {
        match self {
            Phase::Closing { last, .. } => last,
            Phase::Asking { last, .. } => last,
            Phase::Copying { last, .. } => last,
            Phase::CopyingAll { last, .. } => last,
            Phase::Checking { last } => last,
            _ => false,
        }
    }

    /// Whether the backup that winds an episode down is at work.
    pub fn is_last_backup(&self) -> (yes: bool)
        ensures
            yes == self.in_last_backup(),
    {
        match self {
            Phase::Closing { last, dev_id: _ } => *last,
            Phase::Asking { last, closed: _ } => *last,
            Phase::Copying { last, closed: _, ranges: _, broken: _ } => *last,
            Phase::CopyingAll { last, closed: _ } => *last,
            Phase::Checking { last } => *last,
            _ => false,
        }
    }
}

/// The course of an episode: the start, so many random operations, and the
/// winding down.
pub struct Plan {
    pub ops: u32,
    /// the tasks that were begun
    pub begun: u64,
}

impl Plan {
    pub open spec fn wf(self) -> bool {
        self.begun <= self.ops + 2
    }

    /// The number of the operation at work, from 1, if one is.
    pub open spec fn op_number(self) -> Option<u32> {
        if 2 <= self.begun <= self.ops + 1 {
            Some((self.begun - 1) as u32)
        } else {
            None
        }
    }

    /// The task after those that were begun, if there is one.
    pub open spec fn upcoming(self, rng: u64) -> Option<Task> {
        if self.begun == 0 {
            Some(Task::Boot)
        } else if self.begun <= self.ops {
            Some(Task::Op { op: op_for(scramble(advance(rng)) % 100) })
        } else if self.begun == self.ops + 1 {
            Some(Task::WindDown)
        } else {
            None
        }
    }

    pub fn new(ops: u32) -> (plan: Plan)
        ensures
            plan.wf(),
            plan == (Plan { ops, begun: 0 }),
    {
        Plan { ops, begun: 0 }
    }

    /// Begin the next task.
    pub fn next_task(&mut self, rng: &mut Rng) -> (task: Option<Task>)
        requires
            old(self).wf(),
        ensures
            final(self).wf(),
            task == old(self).upcoming(old(rng).0),
            *final(self) == (if task is Some {
                Plan { begun: (old(self).begun + 1) as u64, ..*old(self) }
            } else {
                *old(self)
            }),
            final(rng).0 == if task matches Some(Task::Op { .. }) {
                advance(old(rng).0)
            } else {
                old(rng).0
            },
    {
        let ops: u64 = self.ops as u64;
        let task: Task = if self.begun == 0 {
            Task::Boot
        } else if self.begun <= ops {
            Task::Op { op: pick_op(rng) }
        } else if self.begun == ops + 1 {
            Task::WindDown
        } else {
            return None;
        };
        self.begun = self.begun + 1;
        Some(task)
    }

    /// The line to print when the task at work is done, if there is one: every
    /// fifty operations.
    pub fn progress(&self, h: &Harness) -> (line: Option<String>)
        requires
            self.wf(),
        ensures
            match (line, self.op_number()) {
                (Some(t), Some(n)) => n % 50 == 0 && t@ == progress_text(h@, n, self.ops),
                (None, Some(n)) => n % 50 != 0,
                (None, None) => true,
                (Some(_), None) => false,
            },
    {
        if self.begun < 2 || self.begun > self.ops as u64 + 1 {
            return None;
        }
        let n: u32 = (self.begun - 1) as u32;
        if n % 50 == 0 {
            Some(h.progress_line(n, self.ops))
        } else {
            None
        }
    }

    /// The words for the failure of the task at work; `backing_up` tells that
    /// it came in the backup that winds the episode down.
    pub fn failed(&self, backing_up: bool, why: &str) -> (t: String)
        requires
            self.wf(),
        ensures
            t@ == match self.op_number() {
                Some(n) => "op "@ + decimal(n as nat) + "/"@ + decimal(self.ops as nat)
                    + " failed: "@ + why@,
                None => if backing_up {
                    "final backup: "@ + why@
                } else {
                    why@
                },
            },
    {
        if 2 <= self.begun && self.begun <= self.ops as u64 + 1 {
            let mut t: String = "op ".to_owned();
            push_decimal(&mut t, self.begun - 1);
            t.append("/");
            push_decimal(&mut t, self.ops as u64);
            t.append(" failed: ");
            t.append(why);
            t
        } else if backing_up {
            let mut t: String = "final backup: ".to_owned();
            t.append(why);
            t
        } else {
            why.to_owned()
        }
    }
}

/// What a device is left for stands for what it remembers.
pub proof fn a_leave_is_what_it_holds(leave: Leave)
    ensures
        leave matches Leave::Reattach { was } ==> leave@ == (LeaveView::Reattach { was: was@ }),
        leave matches Leave::LoseMeta { was } ==> leave@ == (LeaveView::LoseMeta { was: was@ }),
        leave matches Leave::Recover { was } ==> leave@ == (LeaveView::Recover { was: was@ }),
        leave matches Leave::CollectWriters { was } ==> leave@ == (LeaveView::CollectWriters {
            was: was@,
        }),
        leave is ReadImage <==> leave@ is ReadImage,
        leave is ShutDown <==> leave@ is ShutDown,
{
}

/// A write that failed is reported with its length, its place and the cause.
pub proof fn failed_writes_are_reported(len: nat, off: nat, cause: Seq<char>)
    ensures
        write_failed(len, off, cause) == "write "@ + decimal(len) + "B at "@ + decimal(off) + ": "@
            + cause,
{
}

} // verus!
