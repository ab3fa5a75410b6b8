//! What a passing episode shows: at each point where the harness could notice
//! that the device or the tracking broke a promise, it goes on only if the
//! promise was kept.

use vstd::prelude::*;

use crate::chaos::{
    bad_chunks, closed_of, episode_gran, episode_queues, episode_size, found_ranges, mismatch,
    op_for, slice_of, write_data, write_len, write_off, Counters, Episode, Op,
};
use crate::episode::{
    all_undefined, begins, piece_bytes, replayed, resumes, total_ok, Action, Event, LeaveView, Next,
    Phase, Plan, Purpose, Task, WriterLog,
};
use crate::json::{json_bool, json_item, json_len, json_str, json_u64};
use crate::model::{entry_views, layered};
use crate::rng::{advance, draw, stream_byte};
use crate::runner::first_difference;
use crate::text::decimal;

verus! {

/// A backup passes its check only if the device holds everything that was
/// written, and the backup image holds what the device does. The device is
/// held against what was written first.
pub proof fn a_check_passes_only_on_agreement(
    ep: Episode,
    rng: u64,
    last: bool,
    img: Vec<u8>,
    ep2: Episode,
    rng2: u64,
    next: Next,
)
    requires
        resumes(
            ep,
            rng,
            Phase::Checking { last },
            Event::Image { image: Ok(img) },
            ep2,
            rng2,
            next,
        ),
    ensures
        !(next is Fail) ==> img@ == ep.expected && img@ == ep.shadow,
        img@ != ep.expected ==> (next matches Next::Fail { why } && exists|first: int| #[trigger]
            first_difference(img@, ep.expected, first) && why@ == mismatch(
                "passthrough (device vs expected)"@,
                img@,
                ep.expected,
                ep.gran,
                first,
            )),
        img@ == ep.expected && img@ != ep.shadow ==> (next matches Next::Fail { why } && exists|
            first: int,
        | #[trigger]
            first_difference(img@, ep.shadow, first) && why@ == mismatch(
                "CBT (backup image vs device)"@,
                img@,
                ep.shadow,
                ep.gran,
                first,
            )),
        img@ == ep.expected && img@ == ep.shadow ==> if !last {
            next is Done
        } else {
            match ep.dev_id {
                Some(id) => next matches Next::Do { action: Action::Detach { dev_id }, .. } && dev_id
                    == id,
                None => next is Fail,
            }
        },
        ep2 == ep,
{
}

/// After a kill under load an episode goes on only if everything that the
/// writers saw complete is on the device.
pub proof fn a_kill_passes_only_if_writes_survived(
    ep: Episode,
    rng: u64,
    completed: u64,
    interrupted: u64,
    img: Vec<u8>,
    ep2: Episode,
    rng2: u64,
    next: Next,
)
    requires
        ep.n.has_room(1),
        ep.n.has_room(interrupted as int),
        resumes(
            ep,
            rng,
            Phase::Surviving { completed, interrupted },
            Event::Image { image: Ok(img) },
            ep2,
            rng2,
            next,
        ),
    ensures
        next is Done <==> img@ == ep.expected,
        next is Fail <==> img@ != ep.expected,
        next is Done ==> {
            &&& ep2.n.inflight_crashes == ep.n.inflight_crashes + 1
            &&& ep2.n.interrupted == ep.n.interrupted + interrupted
        },
        next is Fail ==> ep2 == ep,
        ep2.expected == ep.expected,
{
}

/// An episode winds down only if the detached backing file is everything that
/// was written.
pub proof fn winding_down_needs_the_whole_image(
    ep: Episode,
    rng: u64,
    img: Vec<u8>,
    ep2: Episode,
    rng2: u64,
    next: Next,
)
    requires
        resumes(
            ep,
            rng,
            Phase::ReadingBacking,
            Event::Image { image: Ok(img) },
            ep2,
            rng2,
            next,
        ),
    ensures
        next is Fail <==> img@ != ep.expected,
        img@ == ep.expected ==> (next matches Next::Do {
            action: Action::Attach,
            phase: Phase::Attaching { purpose: Purpose::Last },
        }),
        ep2 == ep,
{
}

/// What the device was attached for is done only if the daemon said what it
/// must: a clean detach is never flagged, a crash always is, the history stays
/// the same through both, and another one begins when the metadata is lost.
pub proof fn attaching_must_tell_the_truth(
    ep: Episode,
    rng: u64,
    purpose: Purpose,
    recovered: Option<bool>,
    ep2: Episode,
    rng2: u64,
    next: Next,
)
    requires
        ep.n.has_room(1),
        resumes(
            ep,
            rng,
            Phase::Opening { purpose, recovered },
            Event::Finished { res: Ok(()) },
            ep2,
            rng2,
            next,
        ),
    ensures
        purpose is Boot ==> next is Done && ep2 == ep,
        purpose matches Purpose::Reattach { was } ==> {
            &&& next is Done <==> recovered != Some(true) && ep.generation == was@
            &&& next is Fail <==> recovered == Some(true) || ep.generation != was@
            &&& next is Done ==> ep2.n.reattaches == ep.n.reattaches + 1
        },
        purpose matches Purpose::Recover { was } ==> {
            &&& next is Done <==> recovered == Some(true) && ep.generation == was@
            &&& next is Fail <==> recovered != Some(true) || ep.generation != was@
            &&& next is Done ==> ep2.n.crashes == ep.n.crashes + 1
        },
        purpose matches Purpose::LoseMeta { was } ==> {
            &&& recovered == Some(true) || ep.generation == was@ ==> next is Fail
            &&& recovered != Some(true) && ep.generation != was@ && ep.cursor is None
                ==> next is Done && ep2.n.meta_losses == ep.n.meta_losses + 1
            &&& recovered != Some(true) && ep.generation != was@ && ep.cursor is Some
                && ep.dev_id is Some ==> (next matches Next::Do {
                action: Action::Dump { dev_id, since, generation },
                phase: Phase::TryingCursor,
            } && dev_id == ep.dev_id->0 && since == (ep.cursor->0).1 && generation@ == (
            ep.cursor->0).0)
        },
        purpose matches Purpose::Inflight { was, completed, undefined } ==> {
            &&& next is Fail <==> recovered != Some(true) || ep.generation != was@
            &&& !(next is Fail) ==> (next matches Next::Do {
                action: Action::ReadRanges { ranges },
                phase: Phase::Adopting { completed: c, interrupted: i },
            } && ranges@ == undefined@ && c == completed && i == undefined@.len())
        },
        purpose is Last ==> {
            &&& recovered == Some(true) ==> next is Fail
            &&& recovered != Some(true) && ep.dev_id is Some ==> (next matches Next::Do {
                action: Action::Detach { dev_id },
                ..
            } && dev_id == ep.dev_id->0)
        },
        next is Fail ==> ep2 == ep,
        ep2.expected == ep.expected && ep2.shadow == ep.shadow && ep2.cursor == ep.cursor,
{
}

/// A cursor of a history that was lost must be rejected.
pub proof fn a_lost_cursor_must_be_rejected(
    ep: Episode,
    rng: u64,
    reply: Result<String, String>,
    ep2: Episode,
    rng2: u64,
    next: Next,
)
    requires
        ep.n.has_room(1),
        resumes(ep, rng, Phase::TryingCursor, Event::Replied { reply }, ep2, rng2, next),
    ensures
        next is Fail <==> reply is Ok,
        next is Done <==> reply is Err,
        next is Done ==> ep2.n.meta_losses == ep.n.meta_losses + 1,
        ep2.expected == ep.expected && ep2.shadow == ep.shadow && ep2.cursor == ep.cursor,
{
}

/// A write that completed is expected on the device from then on, at its place
/// and nowhere else; one that failed ends the operation.
pub proof fn completed_writes_are_expected(
    ep: Episode,
    rng: u64,
    count: u64,
    left: u64,
    off: u64,
    data: Vec<u8>,
    done: Result<(), String>,
    ep2: Episode,
    rng2: u64,
    next: Next,
    p: int,
)
    requires
        ep.n.has_room(1),
        left > 0,
        off + data@.len() <= ep.expected.len(),
        0 <= p < ep.expected.len(),
        resumes(
            ep,
            rng,
            Phase::Burst { count, left },
            Event::Wrote { off, data, done },
            ep2,
            rng2,
            next,
        ),
    ensures
        done is Err ==> next is Fail && ep2 == ep,
        done is Ok ==> {
            &&& ep2.expected.len() == ep.expected.len()
            &&& off <= p < off + data@.len() ==> ep2.expected[p] == data@[p - off]
            &&& p < off || off + data@.len() <= p ==> ep2.expected[p] == ep.expected[p]
            &&& ep2.n.writes == ep.n.writes + 1
            &&& next is Done <==> left == 1
            &&& left == 1 ==> ep2.n.bursts == ep.n.bursts + 1
            &&& left > 1 ==> (next matches Next::Do {
                action: Action::Write { .. },
                phase: Phase::Burst { count: c, left: l },
            } && c == count && l == left - 1)
        },
        ep2.shadow == ep.shadow && ep2.cursor == ep.cursor,
{
}

/// What a backup copies goes onto the backup image, piece by piece, and
/// nothing else does. Only a copy without a failure makes the closed era the
/// new cursor, and it is checked at once.
pub proof fn a_backup_copies_what_was_read(
    ep: Episode,
    rng: u64,
    last: bool,
    closed: u32,
    ranges: usize,
    broken: Option<String>,
    pieces: Vec<(u64, Vec<u8>)>,
    failed: Option<String>,
    ep2: Episode,
    rng2: u64,
    next: Next,
)
    requires
        ep.n.has_room(1),
        resumes(
            ep,
            rng,
            Phase::Copying { last, closed, ranges, broken },
            Event::Pieces { pieces, failed },
            ep2,
            rng2,
            next,
        ),
    ensures
        ep2.shadow == layered(ep.shadow, entry_views(pieces@)),
        ep2.expected == ep.expected,
        next is Fail <==> failed is Some || broken is Some,
        next is Fail ==> ep2.cursor == ep.cursor && ep2.n == ep.n,
        !(next is Fail) ==> {
            &&& ep2.cursor == Some((ep.generation, closed))
            &&& ep2.n.backups == ep.n.backups + 1
            &&& ep2.n.full_copies == ep.n.full_copies
            &&& next matches Next::Do {
                action: Action::ReadAll,
                phase: Phase::Checking { last: l },
            } && l == last
        },
{
}

/// A full copy takes the whole device over.
pub proof fn a_full_copy_is_the_device(
    ep: Episode,
    rng: u64,
    last: bool,
    closed: u32,
    image: Result<Vec<u8>, String>,
    ep2: Episode,
    rng2: u64,
    next: Next,
)
    requires
        ep.n.has_room(1),
        resumes(
            ep,
            rng,
            Phase::CopyingAll { last, closed },
            Event::Image { image },
            ep2,
            rng2,
            next,
        ),
    ensures
        image is Err ==> next is Fail && ep2 == ep,
        image matches Ok(img) ==> {
            &&& ep2.shadow == img@
            &&& ep2.expected == ep.expected
            &&& ep2.cursor == Some((ep.generation, closed))
            &&& ep2.n.backups == ep.n.backups + 1
            &&& ep2.n.full_copies == ep.n.full_copies + 1
            &&& next matches Next::Do {
                action: Action::ReadAll,
                phase: Phase::Checking { last: l },
            } && l == last
        },
{
}

/// A backup asks for the changes since its cursor, as generation and era, and
/// copies everything only if there is no cursor or the daemon rejects it.
pub proof fn a_backup_asks_for_its_cursor(
    ep: Episode,
    rng: u64,
    last: bool,
    dev_id: u64,
    text: String,
    ep2: Episode,
    rng2: u64,
    next: Next,
)
    requires
        ep.n.has_room(1),
        resumes(
            ep,
            rng,
            Phase::Closing { last, dev_id },
            Event::Replied { reply: Ok(text) },
            ep2,
            rng2,
            next,
        ),
    ensures
        json_u64(text@, "closed_era"@) is None ==> next is Fail && ep2 == ep,
        json_u64(text@, "closed_era"@) matches Some(n) ==> {
            &&& ep2.n.checkpoints == ep.n.checkpoints + 1
            &&& ep2.cursor == ep.cursor && ep2.shadow == ep.shadow && ep2.expected == ep.expected
            &&& ep.cursor matches Some((generation, era)) ==> (next matches Next::Do {
                action: Action::Dump { dev_id: d, since, generation: g },
                phase: Phase::Asking { last: l, closed },
            } && d == dev_id && since == era && g@ == generation && l == last && closed
                == n as u32)
            &&& ep.cursor is None ==> (next matches Next::Do {
                action: Action::ReadAll,
                phase: Phase::CopyingAll { last: l, closed },
            } && l == last && closed == n as u32)
        },
{
}

/// What the daemon says has changed is what is copied, no more and no less; a
/// rejected cursor leads to a full copy.
pub proof fn a_backup_copies_what_changed(
    ep: Episode,
    rng: u64,
    last: bool,
    closed: u32,
    reply: Result<String, String>,
    ep2: Episode,
    rng2: u64,
    next: Next,
)
    requires
        resumes(
            ep,
            rng,
            Phase::Asking { last, closed },
            Event::Replied { reply },
            ep2,
            rng2,
            next,
        ),
    ensures
        reply is Err ==> (next matches Next::Do {
            action: Action::ReadAll,
            phase: Phase::CopyingAll { last: l, closed: c },
        } && l == last && c == closed),
        reply matches Ok(text) ==> {
            let n = json_len(text@, "ranges"@);
            let whole = n matches Some(k) && forall|i: usize|
                i < k ==> (#[trigger] json_item(text@, "ranges"@, i, "offset"@)) is Some
                    && json_item(text@, "ranges"@, i, "len"@) is Some;
            &&& n is None ==> next is Fail
            &&& whole ==> (next matches Next::Do {
                action: Action::ReadRanges { ranges },
                phase: Phase::Copying { last: l, closed: c, ranges: r, broken },
            } && {
                &&& l == last && c == closed && broken is None
                &&& ranges@.len() == n->0 && r == n->0
                &&& forall|i: int|
                    0 <= i < ranges@.len() ==> (#[trigger] ranges@[i]) == (
                        json_item(text@, "ranges"@, i as usize, "offset"@)->0,
                        json_item(text@, "ranges"@, i as usize, "len"@)->0,
                    )
            })
        },
        ep2.shadow == ep.shadow && ep2.expected == ep.expected && ep2.cursor == ep.cursor,
{
    if let Ok(text) = reply {
        if let Some(k) = json_len(text@, "ranges"@) {
            if forall|i: usize|
                i < k ==> (#[trigger] json_item(text@, "ranges"@, i, "offset"@)) is Some
                    && json_item(text@, "ranges"@, i, "len"@) is Some {
                lemma_whole_ranges(text@, k, k as nat);
            }
        }
    }
}

proof fn lemma_whole_ranges(text: Seq<char>, k: usize, n: nat)
    requires
        n <= k,
        forall|i: usize|
            i < k ==> (#[trigger] json_item(text, "ranges"@, i, "offset"@)) is Some && json_item(
                text,
                "ranges"@,
                i,
                "len"@,
            ) is Some,
    ensures
        ({
            let found = crate::chaos::reply_ranges(text, n);
            &&& found.1 is None
            &&& found.0.len() == n
            &&& forall|i: int|
                0 <= i < n ==> (#[trigger] found.0[i]) == (
                    json_item(text, "ranges"@, i as usize, "offset"@)->0,
                    json_item(text, "ranges"@, i as usize, "len"@)->0,
                )
        }),
    decreases n,
{
    if n > 0 {
        lemma_whole_ranges(text, k, (n - 1) as nat);
        assert(json_item(text, "ranges"@, (n - 1) as usize, "offset"@) is Some);
    }
}

/// A range that is not complete ends the list there; those before it stand.
pub proof fn broken_ranges_end_the_list(text: Seq<char>, n: nat)
    requires
        n < usize::MAX,
        crate::chaos::reply_ranges(text, n).1 is None,
    ensures
        ({
            let before = crate::chaos::reply_ranges(text, n);
            let after = crate::chaos::reply_ranges(text, n + 1);
            let off = json_item(text, "ranges"@, n as usize, "offset"@);
            let len = json_item(text, "ranges"@, n as usize, "len"@);
            &&& off is Some && len is Some ==> after.0 == before.0.push((off->0, len->0))
                && after.1 is None
            &&& off is None ==> after.0 == before.0 && after.1 == Some("range offset"@)
            &&& off is Some && len is None ==> after.0 == before.0 && after.1 == Some("range len"@)
        }),
        json_len(text, "ranges"@) is None ==> found_ranges(text).0.len() == 0 && found_ranges(
            text,
        ).1 == Some("dump: no ranges"@),
        json_len(text, "ranges"@) matches Some(k) ==> found_ranges(text)
            == crate::chaos::reply_ranges(text, k as nat),
{
}

/// What interrupted writes left is taken over as it is read, and then the
/// whole device is held against what is expected.
pub proof fn interrupted_ranges_are_adopted(
    ep: Episode,
    rng: u64,
    completed: u64,
    interrupted: u64,
    pieces: Vec<(u64, Vec<u8>)>,
    failed: Option<String>,
    ep2: Episode,
    rng2: u64,
    next: Next,
)
    requires
        resumes(
            ep,
            rng,
            Phase::Adopting { completed, interrupted },
            Event::Pieces { pieces, failed },
            ep2,
            rng2,
            next,
        ),
    ensures
        ep2.expected == layered(ep.expected, entry_views(pieces@)),
        ep2.shadow == ep.shadow && ep2.cursor == ep.cursor && ep2.n == ep.n,
        failed is Some <==> next is Fail,
        failed is None ==> (next matches Next::Do {
            action: Action::ReadAll,
            phase: Phase::Surviving { completed: c, interrupted: i },
        } && c == completed && i == interrupted),
{
}

/// Everything that a writer saw complete is expected on the device, and every
/// range that a write was interrupted on is remembered.
pub proof fn writers_are_believed(
    ep: Episode,
    rng: u64,
    was: String,
    logs: Vec<WriterLog>,
    failed: Option<String>,
    ep2: Episode,
    rng2: u64,
    next: Next,
)
    requires
        ep.n.has_room(total_ok(logs@) as int),
        total_ok(logs@) <= u64::MAX,
        resumes(
            ep,
            rng,
            Phase::WritersStopping { was },
            Event::Logs { logs, failed },
            ep2,
            rng2,
            next,
        ),
    ensures
        ep2.expected == replayed(ep.expected, logs@),
        ep2.shadow == ep.shadow && ep2.cursor == ep.cursor,
        failed is Some <==> next is Fail,
        failed is None ==> {
            &&& ep2.n.writes == ep.n.writes + total_ok(logs@)
            &&& next matches Next::Do {
                action: Action::StartDaemon,
                phase: Phase::Starting {
                    purpose: Purpose::Inflight { was: w, completed, undefined },
                },
            } && w@ == was@ && completed == total_ok(logs@) && undefined@ == all_undefined(logs@)
        },
{
}

/// The logs of the writers add up, one writer after the other.
pub proof fn logs_add_up(base: Seq<u8>, logs: Seq<WriterLog>, log: WriterLog)
    ensures
        replayed(base, Seq::empty()) == base,
        replayed(base, logs.push(log)) == layered(replayed(base, logs), entry_views(log.ok@)),
        total_ok(Seq::empty()) == 0,
        total_ok(logs.push(log)) == total_ok(logs) + log.ok@.len(),
        all_undefined(Seq::empty()).len() == 0,
        all_undefined(logs.push(log)) == all_undefined(logs) + log.undefined@,
{
    assert(logs.push(log).drop_last() =~= logs);
}

/// The pieces of a copy add up in bytes, one after the other.
pub proof fn pieces_add_up(pieces: Seq<(u64, Vec<u8>)>, piece: (u64, Vec<u8>))
    ensures
        piece_bytes(Seq::empty()) == 0,
        piece_bytes(pieces.push(piece)) == piece_bytes(pieces) + piece.1@.len(),
{
    assert(entry_views(Seq::<(u64, Vec<u8>)>::empty()) =~= Seq::empty());
    assert(entry_views(pieces.push(piece)) =~= entry_views(pieces).push((piece.0, piece.1@)));
    assert(entry_views(pieces.push(piece)).drop_last() =~= entry_views(pieces));
}

/// The image after a list of writes holds, byte by byte, the last write to it.
pub proof fn the_last_write_counts(
    base: Seq<u8>,
    entries: Seq<crate::model::Entry>,
    entry: crate::model::Entry,
    p: int,
)
    requires
        0 <= p < base.len(),
    ensures
        layered(base, Seq::empty()) == base,
        layered(base, entries).len() == base.len(),
        layered(base, entries.push(entry))[p] == if entry.0 <= p < entry.0 + entry.1.len() {
            entry.1[p - entry.0]
        } else {
            layered(base, entries)[p]
        },
{
    crate::model::lemma_layered_len(base, entries);
    assert(entries.push(entry).drop_last() =~= entries);
}

/// No operation goes on after an action that failed, and none of its counters
/// moves; only a rejected cursor is no failure.
pub proof fn a_failed_action_ends_the_operation(
    ep: Episode,
    rng: u64,
    phase: Phase,
    event: Event,
    ep2: Episode,
    rng2: u64,
    next: Next,
)
    requires
        resumes(ep, rng, phase, event, ep2, rng2, next),
        event matches Event::Finished { res } ==> res is Err,
        event matches Event::Wrote { done, .. } ==> done is Err,
        event matches Event::Image { image } ==> image is Err,
        event matches Event::Replied { reply } ==> reply is Err,
        event matches Event::Pieces { failed, .. } ==> failed is Some,
        event matches Event::Logs { failed, .. } ==> failed is Some,
        !(phase is Asking),
        !(phase is TryingCursor),
    ensures
        next is Fail,
        ep2.n == ep.n,
        ep2.cursor == ep.cursor,
        ep2.dev_id == ep.dev_id,
        ep2.generation == ep.generation,
        ep2.journal == ep.journal,
        rng2 == rng,
{
}

/// What an event can change: the geometry never, what is expected only by a
/// write, the backup image and the cursor only by a copy, and the history only
/// by an attach.
pub proof fn everything_else_stays(
    ep: Episode,
    rng: u64,
    phase: Phase,
    event: Event,
    ep2: Episode,
    rng2: u64,
    next: Next,
)
    requires
        resumes(ep, rng, phase, event, ep2, rng2, next),
    ensures
        ep2.size == ep.size && ep2.gran == ep.gran && ep2.queues == ep.queues && ep2.buffered
            == ep.buffered,
        !(phase is Burst || phase is WritersStopping || phase is Adopting) ==> ep2.expected
            == ep.expected,
        !(phase is Copying || phase is CopyingAll) ==> ep2.shadow == ep.shadow && ep2.cursor
            == ep.cursor && ep2.n.backups == ep.n.backups,
        !(phase is Attaching) ==> ep2.generation == ep.generation,
        !(phase is Attaching || phase is Leaving) ==> ep2.dev_id == ep.dev_id,
        ep.journal.is_prefix_of(ep2.journal),
        ep2.journal.len() <= ep.journal.len() + 1,
        !(phase is Burst || phase is WritersStarting) ==> rng2 == rng,
{
    assert(ep.journal.is_prefix_of(ep.journal));
    if ep2.journal != ep.journal {
        assert(ep2.journal.drop_last() =~= ep.journal);
    }
}

/// An attach takes over the id and the history that the daemon answered with.
pub proof fn an_attach_takes_over_the_answer(
    ep: Episode,
    rng: u64,
    purpose: Purpose,
    text: String,
    ep2: Episode,
    rng2: u64,
    next: Next,
)
    requires
        resumes(
            ep,
            rng,
            Phase::Attaching { purpose },
            Event::Replied { reply: Ok(text) },
            ep2,
            rng2,
            next,
        ),
    ensures
        next is Fail <==> json_u64(text@, "dev_id"@) is None || json_str(text@, "generation"@) is None,
        !(next is Fail) ==> {
            &&& ep2.dev_id == json_u64(text@, "dev_id"@)
            &&& Some(ep2.generation) == json_str(text@, "generation"@)
            &&& next matches Next::Do {
                action: Action::Open { path },
                phase: Phase::Opening { recovered, .. },
            } && path@ == "/dev/ublkb"@ + decimal(ep2.dev_id->0 as nat) && recovered
                == json_bool(text@, "recovered_unclean"@)
        },
{
}

/// A device that was told to go is forgotten, and its node is waited for
/// before anything else happens.
pub proof fn leaving_waits_for_the_node(
    ep: Episode,
    rng: u64,
    leave: crate::episode::Leave,
    ep2: Episode,
    rng2: u64,
    next: Next,
)
    requires
        resumes(
            ep,
            rng,
            Phase::Leaving { leave },
            Event::Finished { res: Ok(()) },
            ep2,
            rng2,
            next,
        ),
    ensures
        ep2.dev_id is None,
        ep.dev_id matches Some(id) ==> (next matches Next::Do {
            action: Action::AwaitGone { dev_id },
            phase: Phase::Vanishing { leave: l },
        } && dev_id == id && l@ == leave@),
        ep.dev_id is None ==> !(next is Fail) && !(next matches Next::Do {
            action: Action::AwaitGone { .. },
            ..
        }),
{
}

/// Once the node is gone, what the device was left for follows: another
/// attach, the loss of the metadata, a new daemon, the writers' logs, the
/// image, or the end.
pub proof fn what_follows_a_departure(
    ep: Episode,
    rng: u64,
    leave: crate::episode::Leave,
    ep2: Episode,
    rng2: u64,
    next: Next,
)
    requires
        resumes(
            ep,
            rng,
            Phase::Vanishing { leave },
            Event::Finished { res: Ok(()) },
            ep2,
            rng2,
            next,
        ),
    ensures
        ep2 == ep,
        leave@ is Reattach <==> (next matches Next::Do { action: Action::Attach, .. }),
        leave@ is LoseMeta <==> (next matches Next::Do { action: Action::RemoveMeta, .. }),
        leave@ is Recover <==> (next matches Next::Do { action: Action::StartDaemon, .. }),
        leave@ is CollectWriters <==> (next matches Next::Do { action: Action::StopWriters, .. }),
        leave@ is ReadImage <==> (next matches Next::Do { action: Action::ReadBacking, .. }),
        leave@ is ShutDown <==> (next matches Next::Do { action: Action::Shutdown, .. }),
        leave@ matches LeaveView::Reattach { was } ==> (next matches Next::Do {
            phase: Phase::Attaching { purpose: Purpose::Reattach { was: w } },
            ..
        } && w@ == was),
        leave@ matches LeaveView::Recover { was } ==> (next matches Next::Do {
            phase: Phase::Starting { purpose: Purpose::Recover { was: w } },
            ..
        } && w@ == was),
        leave@ matches LeaveView::LoseMeta { was } ==> (next matches Next::Do {
            phase: Phase::RemovingMeta { was: w },
            ..
        } && w@ == was),
        leave@ matches LeaveView::CollectWriters { was } ==> (next matches Next::Do {
            phase: Phase::WritersStopping { was: w },
            ..
        } && w@ == was),
{
}

/// How each operation begins: what it does first, on the attached device. One
/// that needs a device fails without one.
pub proof fn operations_begin_with_their_action(
    ep: Episode,
    rng: u64,
    op: Op,
    rng2: u64,
    next: Next,
)
    requires
        ep.wf(),
        begins(ep, rng, Task::Op { op }, rng2, next),
    ensures
        op is WriteBurst ==> (next matches Next::Do {
            action: Action::Write { off, data },
            phase: Phase::Burst { count, left },
        } && {
            &&& count == left
            &&& count == 1 + draw(rng, 0) % 24
            &&& off as int % 4096 == 0
            &&& data@.len() > 0 && data@.len() % 4096 == 0
            &&& off + data@.len() <= ep.size
        }),
        op is BackupVerify || op is Checkpoint ==> match ep.dev_id {
            Some(id) => next matches Next::Do { action: Action::Checkpoint { dev_id }, .. }
                && dev_id == id,
            None => next is Fail,
        },
        op is BackupVerify && !(next is Fail) ==> (next matches Next::Do {
            phase: Phase::Closing { last: false, .. },
            ..
        }),
        op is Checkpoint && !(next is Fail) ==> (next matches Next::Do {
            phase: Phase::CheckpointOnly,
            ..
        }),
        op is Reattach || op is LoseMeta ==> match ep.dev_id {
            Some(id) => next matches Next::Do {
                action: Action::Detach { dev_id },
                phase: Phase::Leaving { leave },
            } && dev_id == id && leave@ == if op is Reattach {
                LeaveView::Reattach { was: ep.generation }
            } else {
                LeaveView::LoseMeta { was: ep.generation }
            },
            None => next is Fail,
        },
        op is Crash || op is CrashInflight && ep.size < 4 * 4096 ==> (next matches Next::Do {
            action: Action::Kill,
            phase: Phase::Leaving { leave },
        } && leave@ == (LeaveView::Recover { was: ep.generation })),
        op is CrashInflight && ep.size >= 4 * 4096 ==> match ep.dev_id {
            Some(id) => next matches Next::Do {
                action: Action::StartWriters { path, slice, seeds },
                phase: Phase::WritersStarting { was },
            } && {
                &&& path@ == "/dev/ublkb"@ + decimal(id as nat)
                &&& 4 * slice <= ep.size < 4 * (slice + 4096)
                &&& slice % 4096 == 0
                &&& seeds@.len() == 4
                &&& forall|t: int| 0 <= t < 4 ==> #[trigger] seeds@[t] == draw(rng, t as nat)
                &&& was@ == ep.generation
            },
            None => next is Fail,
        },
{
    reveal_with_fuel(crate::rng::advance_by, 2);
    if op is WriteBurst {
        lemma_writes_fit(0, ep.size, advance(rng));
    }
}

proof fn lemma_writes_fit(base: u64, span: u64, rng: u64)
    requires
        span >= 4096,
        span % 4096 == 0,
        base % 4096 == 0,
    ensures
        ({
            let off = write_off(base, span, rng);
            let len = write_len(base, span, rng);
            &&& base <= off
            &&& off % 4096 == 0
            &&& 0 < len <= 0x4_0000
            &&& len % 4096 == 0
            &&& off + len <= base + span
            &&& write_data(base, span, rng).len() == len
        }),
{
    let blocks = span as int / 4096;
    let d = draw(rng, 0) as int;
    let k = d % blocks;
    assert(0 <= k < blocks) by (nonlinear_arith)
        requires
            blocks > 0,
            k == d % blocks,
    ;
    let off = write_off(base, span, rng);
    assert(off == base + 4096 * k);
    let left = base + span - off;
    assert(left >= 4096 && left % 4096 == 0);
    let most = if left < 0x4_0000 {
        left
    } else {
        0x4_0000
    };
    let room = most / 4096;
    assert(room * 4096 == most);
    let e = draw(rng, 1) as int;
    let j = e % room;
    assert(0 <= j < room) by (nonlinear_arith)
        requires
            room > 0,
            j == e % room,
    ;
    let len = write_len(base, span, rng);
    assert(len == 4096 * (1 + j));
    assert(len <= most);
}

/// A random write lies within its slice, in whole blocks of 4096 bytes and
/// 256 KiB at most. Which block it begins at and how long it is are the first
/// two draws, and its content is the stream that follows.
pub proof fn random_writes_follow_the_draws(base: u64, span: u64, rng: u64, i: int)
    requires
        span >= 4096,
        span % 4096 == 0,
        base % 4096 == 0,
    ensures
        ({
            let off = write_off(base, span, rng);
            let len = write_len(base, span, rng);
            let room = (base + span - off) / 4096;
            &&& base <= off && off + len <= base + span
            &&& (off - base) / 4096 == draw(rng, 0) as int % (span as int / 4096)
            &&& (off - base) % 4096 == 0
            &&& 0 < len <= 256 * 1024 && len % 4096 == 0
            &&& len / 4096 - 1 == draw(rng, 1) as int % if room < 64 {
                room
            } else {
                64
            }
            &&& write_data(base, span, rng).len() == len
            &&& 0 <= i < len ==> write_data(base, span, rng)[i] == stream_byte(
                advance(advance(rng)),
                i,
            )
        }),
{
    reveal_with_fuel(crate::rng::advance_by, 3);
    lemma_writes_fit(base, span, rng);
}

/// How often each operation comes up in a hundred: 45 bursts, 15 backups, 10
/// checkpoints, 10 re-attaches, 8 crashes, 8 crashes under load and 4 losses
/// of the metadata.
pub proof fn operations_come_up_in_proportion(r: u64)
    requires
        r < 100,
    ensures
        op_for(r) is WriteBurst <==> r < 45,
        op_for(r) is BackupVerify <==> 45 <= r < 45 + 15,
        op_for(r) is Checkpoint <==> 60 <= r < 60 + 10,
        op_for(r) is Reattach <==> 70 <= r < 70 + 10,
        op_for(r) is Crash <==> 80 <= r < 80 + 8,
        op_for(r) is CrashInflight <==> 88 <= r < 88 + 8,
        op_for(r) is LoseMeta <==> 96 <= r,
{
}

/// An episode boots, performs as many operations as it was asked for, winds
/// down, and is over.
pub proof fn a_plan_has_its_operations(plan: Plan, rng: u64)
    requires
        plan.wf(),
    ensures
        plan.begun == 0 <==> plan.upcoming(rng) == Some(Task::Boot),
        1 <= plan.begun <= plan.ops <==> (plan.upcoming(rng) matches Some(Task::Op { .. })),
        1 <= plan.begun <= plan.ops ==> plan.upcoming(rng) == Some(
            Task::Op { op: op_for(draw(rng, 0) % 100) },
        ),
        plan.begun == plan.ops + 1 <==> plan.upcoming(rng) == Some(Task::WindDown),
        plan.begun == plan.ops + 2 <==> plan.upcoming(rng) is None,
        plan.op_number() matches Some(n) ==> 1 <= n <= plan.ops && n == plan.begun - 1,
        plan.op_number() is None <==> plan.begun <= 1 || plan.begun == plan.ops + 2,
{
    reveal_with_fuel(crate::rng::advance_by, 2);
}

/// What is given for an episode is taken as it is; what is not is drawn.
pub proof fn episodes_derive_from_the_seed(given: u64, rng: u64)
    ensures
        given != 0 ==> episode_gran(given, rng) == given && episode_size(given, rng) == given,
        ({
            let g = episode_gran(0, rng);
            let d = draw(rng, 0) % 4;
            &&& d == 0 ==> g == 4096
            &&& d == 1 ==> g == 16384
            &&& d == 2 ==> g == 65536
            &&& d == 3 ==> g == 262144
        }),
        episode_size(0, rng) == 32 * 1024 * 1024 + 4096 * (draw(rng, 0) % 16),
        ({
            let q = episode_queues(rng);
            let d = draw(rng, 0) % 3;
            &&& d == 0 ==> q == 1
            &&& d == 1 ==> q == 2
            &&& d == 2 ==> q == 4
        }),
{
    reveal_with_fuel(crate::rng::advance_by, 2);
}

/// The count of chunks that differ grows by one for each chunk in which some
/// byte differs.
pub proof fn differing_chunks_are_counted(
    actual: Seq<u8>,
    model: Seq<u8>,
    gran: u64,
    n: nat,
)
    requires
        gran > 0,
        actual.len() == model.len(),
        n * gran < actual.len(),
    ensures
        bad_chunks(actual, model, gran, 0) == 0,
        ({
            let differs = exists|p: int|
                n * gran <= p < (n + 1) * gran && p < actual.len() && #[trigger] actual[p]
                    != model[p];
            bad_chunks(actual, model, gran, n + 1) == bad_chunks(actual, model, gran, n)
                + if differs {
                1int
            } else {
                0
            }
        }),
{
    let g = gran as int;
    let from = n * g;
    assert((n + 1) * g == from + g) by (nonlinear_arith)
        requires
            from == n * g,
    ;
    assert(0 <= from) by (nonlinear_arith)
        requires
            from == n * g,
            g > 0,
    ;
    let end = if (n + 1) * g < actual.len() {
        (n + 1) * g
    } else {
        actual.len() as int
    };
    let a = actual.subrange(from, end);
    let m = model.subrange(from, end);
    if exists|p: int|
        n * gran <= p < (n + 1) * gran && p < actual.len() && #[trigger] actual[p] != model[p] {
        let p = choose|p: int|
            n * gran <= p < (n + 1) * gran && p < actual.len() && #[trigger] actual[p] != model[p];
        assert(a[p - from] == actual[p] && m[p - from] == model[p]);
    } else {
        assert forall|i: int| 0 <= i < a.len() implies a[i] == m[i] by {
            assert(actual[from + i] == model[from + i]);
        }
        assert(a =~= m);
    }
}

/// A mismatch names what was compared, the first byte and its chunk, and how
/// many of the chunks differ.
pub proof fn a_mismatch_says_where(
    what: Seq<char>,
    actual: Seq<u8>,
    model: Seq<u8>,
    gran: u64,
    first: int,
    n: nat,
)
    requires
        gran > 0,
        actual.len() <= u64::MAX,
        0 <= first < actual.len(),
        (n - 1) * gran < actual.len() <= n * gran,
    ensures
        mismatch(what, actual, model, gran, first) == what + " MISMATCH: first differing byte at "@
            + decimal(first as nat) + " (chunk "@ + decimal((first / (gran as int)) as nat)
            + "), "@ + decimal(bad_chunks(actual, model, gran, n)) + " of "@ + decimal(n)
            + " chunks differ"@,
{
    let g = gran as int;
    let len = actual.len() as int;
    assert((len + g - 1) / g == n) by (nonlinear_arith)
        requires
            g > 0,
            (n - 1) * g < len <= n * g,
    ;
}

/// The slices of the writers are as large as the device allows, in whole
/// blocks.
pub proof fn slices_share_the_device(size: u64)
    ensures
        4 * slice_of(size) <= size < 4 * (slice_of(size) + 4096),
        slice_of(size) % 4096 == 0,
{
}

/// A closed era is the number that the daemon answered with, as 32 bits hold
/// it; without one there is no backup.
pub proof fn closed_eras_are_taken_over(n: u32, big: u64)
    ensures
        closed_of(Some(n as u64)) == Ok::<u32, Seq<char>>(n),
        closed_of(Some(big)) == Ok::<u32, Seq<char>>(big as u32),
        closed_of(None) is Err,
{
    assert((n as u64) as u32 == n);
}

/// An episode begins with nothing counted.
pub proof fn nothing_is_counted_at_first()
    ensures
        ({
            let n = Counters::zero();
            &&& n.writes == 0 && n.bursts == 0 && n.backups == 0 && n.full_copies == 0
            &&& n.checkpoints == 0 && n.reattaches == 0 && n.crashes == 0
            &&& n.inflight_crashes == 0 && n.interrupted == 0 && n.meta_losses == 0
        }),
{
}

/// An episode boots with the daemon and winds down with a last backup.
pub proof fn episodes_begin_and_end(ep: Episode, rng: u64, rng2: u64, next: Next)
    ensures
        begins(ep, rng, Task::Boot, rng2, next) ==> rng2 == rng && (next matches Next::Do {
            action: Action::StartDaemon,
            phase: Phase::Starting { purpose: Purpose::Boot },
        }),
        begins(ep, rng, Task::WindDown, rng2, next) ==> rng2 == rng && match ep.dev_id {
            Some(id) => next matches Next::Do {
                action: Action::Checkpoint { dev_id },
                phase: Phase::Closing { last: true, dev_id: d },
            } && dev_id == id && d == id,
            None => next is Fail,
        },
{
}

/// What follows an action that has no outcome to judge: the next one of the
/// operation.
pub proof fn operations_go_on(
    ep: Episode,
    rng: u64,
    phase: Phase,
    ep2: Episode,
    rng2: u64,
    next: Next,
)
    requires
        resumes(ep, rng, phase, Event::Finished { res: Ok(()) }, ep2, rng2, next),
    ensures
        phase matches Phase::Starting { purpose } ==> ep2 == ep && (next matches Next::Do {
            action: Action::Attach,
            phase: Phase::Attaching { purpose: p },
        } && crate::episode::same_purpose(p, purpose)),
        phase matches Phase::RemovingMeta { was } ==> ep2 == ep && (next matches Next::Do {
            action: Action::Attach,
            phase: Phase::Attaching { purpose: Purpose::LoseMeta { was: w } },
        } && w@ == was@),
        phase matches Phase::WritersStarting { was } ==> ep2 == ep && (next matches Next::Do {
            action: Action::Sleep { ms },
            phase: Phase::WritersRunning { was: w },
        } && w@ == was@ && ms == 50 + draw(rng, 0) % 250 && rng2 == advance(rng)),
        phase matches Phase::WritersRunning { was } ==> ep2 == ep && (next matches Next::Do {
            action: Action::Kill,
            phase: Phase::Leaving { leave },
        } && leave@ == (LeaveView::CollectWriters { was: was@ })),
        phase is ShuttingDown ==> ep2 == ep && next is Done,
{
    reveal_with_fuel(crate::rng::advance_by, 2);
}

/// Purposes are the same only if they are of one kind and remember the same.
pub proof fn purposes_are_kept(a: Purpose, b: Purpose)
    requires
        crate::episode::same_purpose(a, b),
    ensures
        a is Boot <==> b is Boot,
        a is Last <==> b is Last,
        a matches Purpose::Reattach { was } ==> (b matches Purpose::Reattach { was: w } && w@
            == was@),
        a matches Purpose::Recover { was } ==> (b matches Purpose::Recover { was: w } && w@
            == was@),
        a matches Purpose::LoseMeta { was } ==> (b matches Purpose::LoseMeta { was: w } && w@
            == was@),
        a matches Purpose::Inflight { was, completed, undefined } ==> (b matches Purpose::Inflight {
            was: w,
            completed: c,
            undefined: u,
        } && w@ == was@ && c == completed && u@ == undefined@),
{
}

/// An attach keeps its purpose until the device is open.
pub proof fn an_attach_keeps_its_purpose(
    ep: Episode,
    rng: u64,
    purpose: Purpose,
    reply: Result<String, String>,
    ep2: Episode,
    rng2: u64,
    next: Next,
)
    requires
        resumes(ep, rng, Phase::Attaching { purpose }, Event::Replied { reply }, ep2, rng2, next),
        !(next is Fail),
    ensures
        next matches Next::Do { phase: Phase::Opening { purpose: p, .. }, .. }
            && crate::episode::same_purpose(p, purpose),
{
}

/// A checkpoint without a backup is counted, and changes nothing else but the
/// journal.
pub proof fn checkpoints_are_counted(
    ep: Episode,
    rng: u64,
    text: String,
    ep2: Episode,
    rng2: u64,
    next: Next,
)
    requires
        ep.n.has_room(1),
        resumes(
            ep,
            rng,
            Phase::CheckpointOnly,
            Event::Replied { reply: Ok(text) },
            ep2,
            rng2,
            next,
        ),
    ensures
        next is Done,
        ep2.n == (Counters { checkpoints: (ep.n.checkpoints + 1) as u64, ..ep.n }),
        ep2.journal.len() == ep.journal.len() + 1,
        ep2.journal.last() == "checkpoint: closed era "@ + match crate::json::json_shown(
            text@,
            "closed_era"@,
        ) {
            Some(shown) => shown,
            None => Seq::empty(),
        },
{
}

/// A failure belongs to the last backup exactly while that is at work.
pub proof fn the_last_backup_is_told_apart(phase: Phase)
    ensures
        phase.in_last_backup() <==> (phase matches Phase::Closing { last: true, .. }) || (
        phase matches Phase::Asking { last: true, .. }) || (phase matches Phase::Copying {
            last: true,
            ..
        }) || (phase matches Phase::CopyingAll { last: true, .. }) || (
        phase matches Phase::Checking { last: true }),
{
}

} // verus!
