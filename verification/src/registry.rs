//! What the daemon answers: each request is served for the device it names and
//! for no other, and a reply tells the state of that device as it is.

use vstd::prelude::*;

use crate::ctl::{serves, Dispatch, Request};
use crate::era::{is_diff, DirtyRange, EraMap};
use crate::json::opt_view;
use crate::manager::{
    accepts_cursor, add_refusal, all_checkpointed, answers_to, can_add, canonical, describes,
    refusal, starting_map, tells_checkpoint, CheckpointReply, ManagerError, Registry, StatusReply,
    Target,
};
use crate::meta::{decode, load_complaint, LoadError};
use crate::text::{decimal, hex_digits};

verus! {

/// A target that is given by its id.
pub open spec fn by_id(id: u32) -> Target {
    Target { dev_id: Some(id), backing: None }
}

/// What a status says of a device is what the registry holds of it.
pub proof fn a_status_tells_the_state(reg: Registry, id: u32, reply: StatusReply)
    requires
        describes(reg, id, reply),
    ensures
        reply.dev_id == id,
        reply.backing@ == reg.devices[id].backing,
        opt_view(reply.meta_path) == reg.devices[id].meta,
        ({
            let map = reg.states[reg.devices[id].ticket];
            &&& reply.dev_size == map.dev_size
            &&& reply.granularity == map.granularity
            &&& reply.generation@ == hex_digits(map.generation as nat, 16)
            &&& reply.current_era == map.current_era
            &&& reply.nr_chunks == map.eras.len()
            &&& reply.written_chunks == map.eras.filter(|e: u32| e > 0).len()
        }),
{
}

/// A status that is asked for by id is that of the device with this id, if
/// there is one, and changes nothing.
pub proof fn a_status_is_of_the_device_asked_for(
    reg: Registry,
    id: u32,
    canon: Option<Seq<char>>,
    canons: Seq<(u32, Option<String>)>,
    after: Registry,
    res: Dispatch,
)
    requires
        serves(reg, Request::Status { target: by_id(id) }, canon, canons, after, res),
    ensures
        after == reg,
        reg.devices.contains_key(id) <==> res is Status,
        !reg.devices.contains_key(id) <==> res is Refused,
        res matches Dispatch::Status { status } ==> describes(reg, id, status),
        res matches Dispatch::Refused { why } ==> (why matches ManagerError::NotManaged { dev_id }
            && dev_id == id),
{
}

/// A list has one entry for each attached device, in the order of their ids,
/// and changes nothing.
pub proof fn a_list_names_every_device(
    reg: Registry,
    canon: Option<Seq<char>>,
    canons: Seq<(u32, Option<String>)>,
    after: Registry,
    res: Dispatch,
    id: u32,
)
    requires
        serves(reg, Request::List, canon, canons, after, res),
    ensures
        after == reg,
        res matches Dispatch::List { list } && {
            &&& reg.devices.contains_key(id) <==> exists|i: int|
                0 <= i < list@.len() && (#[trigger] list@[i]).dev_id == id
            &&& forall|i: int|
                0 <= i < list@.len() ==> describes(reg, (#[trigger] list@[i]).dev_id, list@[i])
            &&& forall|i: int, j: int|
                0 <= i < j < list@.len() ==> (#[trigger] list@[i]).dev_id < (
                #[trigger] list@[j]).dev_id
        },
{
}

/// A checkpoint closes the current era of the device it names and opens the
/// next, and leaves what was written, and every other device, as they are.
pub proof fn a_checkpoint_is_of_the_device_asked_for(
    reg: Registry,
    id: u32,
    canon: Option<Seq<char>>,
    canons: Seq<(u32, Option<String>)>,
    after: Registry,
    res: Dispatch,
    other: u32,
)
    requires
        reg.wf(),
        reg.devices.contains_key(id),
        reg.map_of(id).current_era < u32::MAX,
        reg.devices.contains_key(other),
        serves(reg, Request::Checkpoint { target: by_id(id) }, canon, canons, after, res),
    ensures
        res matches Dispatch::Checkpoint { checkpoint } && {
            &&& checkpoint.dev_id == id
            &&& checkpoint.backing@ == reg.devices[id].backing
            &&& checkpoint.closed_era == reg.map_of(id).current_era
            &&& checkpoint.current_era == reg.map_of(id).current_era + 1
        },
        after.devices == reg.devices,
        after.next_ticket == reg.next_ticket,
        after.map_of(id).current_era == reg.map_of(id).current_era + 1,
        after.map_of(id).eras == reg.map_of(id).eras,
        after.map_of(id).generation == reg.map_of(id).generation,
        other != id ==> after.map_of(other) == reg.map_of(other),
{
    assert(reg.devices[id].ticket != reg.devices[other].ticket || id == other);
}

/// What a checkpoint has persisted, where the device has a place for it, is
/// the map with the era closed, marked as not complete: loaded after a crash,
/// it counts as changed everywhere.
pub proof fn a_checkpoint_is_saved_unclean(
    reg: Registry,
    id: u32,
    reply: CheckpointReply,
    generation: u64,
)
    requires
        reg.wf(),
        reg.devices.contains_key(id),
        reg.map_of(id).current_era < u32::MAX,
        tells_checkpoint(reg, id, reply),
    ensures
        reply.save is Some <==> reg.devices[id].meta is Some,
        reply.save matches Some((path, raw)) ==> {
            let map = reg.map_of(id);
            &&& Some(path@) == reg.devices[id].meta
            &&& decode(raw@, map.dev_size, map.granularity) == Ok::<(EraMap, bool), LoadError>(
                (EraMap { current_era: (map.current_era + 1) as u32, ..map }, false),
            )
            &&& starting_map(
                Some(raw@),
                map.dev_size,
                map.granularity,
                generation,
            ) matches Ok((start, flagged)) && flagged && start.generation == map.generation
        },
{
    assert(reg.states.contains_key(reg.devices[id].ticket));
    crate::meta::load_restores_save(reg.map_of(id).checkpointed(), false);
}

/// A checkpoint of everything closes one era on every device, tells so for
/// each in the order of their ids, and leaves what was written as it is.
pub proof fn a_checkpoint_of_everything(
    reg: Registry,
    canon: Option<Seq<char>>,
    canons: Seq<(u32, Option<String>)>,
    after: Registry,
    res: Dispatch,
    id: u32,
)
    requires
        reg.wf(),
        serves(reg, Request::CheckpointAll, canon, canons, after, res),
        reg.devices.contains_key(id),
        reg.map_of(id).current_era < u32::MAX,
    ensures
        after.devices == reg.devices,
        after.map_of(id).current_era == reg.map_of(id).current_era + 1,
        after.map_of(id).eras == reg.map_of(id).eras,
        after.map_of(id).generation == reg.map_of(id).generation,
        res matches Dispatch::CheckpointAll { checkpoints } && exists|i: int|
            0 <= i < checkpoints@.len() && (#[trigger] checkpoints@[i]).dev_id == id
                && checkpoints@[i].closed_era == reg.map_of(id).current_era
                && checkpoints@[i].current_era == reg.map_of(id).current_era + 1
                && checkpoints@[i].backing@ == reg.devices[id].backing,
        forall|t: u64|
            #[trigger] reg.states.contains_key(t) && !reg.is_attached(t) ==> after.states[t]
                == reg.states[t],
{
    if let Dispatch::CheckpointAll { checkpoints } = res {
        let i = choose|i: int|
            0 <= i < checkpoints@.len() && (#[trigger] checkpoints@[i]).dev_id == id;
        assert(tells_checkpoint(reg, checkpoints@[i].dev_id, checkpoints@[i]));
    }
}

/// A dump answers only a cursor of the device's own history: an era that was
/// closed, and the generation of the device if one is given. It then names
/// exactly the bytes whose chunk was written since.
pub proof fn a_dump_answers_its_own_history(
    reg: Registry,
    id: u32,
    since: u32,
    generation: Option<String>,
    canon: Option<Seq<char>>,
    canons: Seq<(u32, Option<String>)>,
    after: Registry,
    res: Dispatch,
    byte: int,
)
    requires
        reg.wf(),
        reg.devices.contains_key(id),
        0 <= byte < reg.map_of(id).dev_size,
        serves(
            reg,
            Request::Dump { target: by_id(id), since, generation },
            canon,
            canons,
            after,
            res,
        ),
    ensures
        after == reg,
        ({
            let map = reg.map_of(id);
            let own = generation is Some ==> generation->0@ == hex_digits(map.generation as nat, 16);
            &&& res is Dump <==> own && since < map.current_era
            &&& res is Refused <==> !own || since >= map.current_era
            &&& res matches Dispatch::Refused { why } ==> if own {
                why matches ManagerError::StaleCursor { since: s } && s == since
            } else {
                why matches ManagerError::OtherHistory { given, current } && given@
                    == generation->0@ && current@ == hex_digits(map.generation as nat, 16)
            }
            &&& res matches Dispatch::Dump { dump } ==> {
                &&& dump.dev_id == id
                &&& dump.since == since
                &&& dump.granularity == map.granularity
                &&& dump.current_era == map.current_era
                &&& dump.generation@ == hex_digits(map.generation as nat, 16)
                &&& dump.dirty_bytes == crate::era::total_len(dump.ranges@)
                &&& map.eras[byte / (map.granularity as int)] > since <==> exists|k: int|
                    0 <= k < dump.ranges@.len() && (#[trigger] dump.ranges@[k]).offset <= byte
                        && byte < dump.ranges@[k].offset + dump.ranges@[k].len
            }
        }),
{
    assert(reg.states.contains_key(reg.devices[id].ticket));
    if let Dispatch::Dump { dump } = res {
        crate::cbt::a_diff_is_exact(reg.map_of(id), since, dump.ranges@, byte);
    }
}

/// A cursor belongs to a history exactly if its era was closed in it, and its
/// generation, if it has one, is that of the history.
pub proof fn cursors_belong_to_a_history(map: EraMap, since: u32, generation: Option<Seq<char>>)
    ensures
        accepts_cursor(map, since, generation) <==> since < map.current_era && (generation is Some
            ==> generation->0 == hex_digits(map.generation as nat, 16)),
{
}

/// A request that names both an id and a path, or neither, is refused, and so
/// is one that names a path that no device answers to.
pub proof fn targets_must_be_clear(
    reg: Registry,
    req: Request,
    target: Target,
    canon: Option<Seq<char>>,
    canons: Seq<(u32, Option<String>)>,
    after: Registry,
    res: Dispatch,
)
    requires
        crate::ctl::target_of(req) == Some(target),
        serves(reg, req, canon, canons, after, res),
    ensures
        target.dev_id is Some && target.backing is Some ==> (res matches Dispatch::Refused {
            why,
        } && why is BothGiven),
        target.dev_id is None && target.backing is None ==> (res matches Dispatch::Refused {
            why,
        } && why is NoneGiven),
        target.dev_id is None && target.backing is Some && (forall|id: u32|
            !answers_to(reg, id, target.backing->0@, canon, canons)) ==> (res matches
            Dispatch::Refused { why } && (why matches ManagerError::NoSuchBacking { backing }
            && backing@ == target.backing->0@)),
        res is Refused ==> after == reg,
{
}

/// A request by path goes to an attached device whose backing is that path, or
/// leads to the same place.
pub proof fn paths_lead_to_their_device(
    reg: Registry,
    backing: String,
    canon: Option<Seq<char>>,
    canons: Seq<(u32, Option<String>)>,
    after: Registry,
    res: Dispatch,
)
    requires
        serves(
            reg,
            Request::Del { target: Target { dev_id: None, backing: Some(backing) } },
            canon,
            canons,
            after,
            res,
        ),
    ensures
        after == reg,
        res matches Dispatch::Detach { dev_id } ==> {
            &&& reg.devices.contains_key(dev_id)
            &&& reg.devices[dev_id].backing == backing@ || canon is Some && canonical(
                canons,
                dev_id,
            ) == canon
        },
        res is Refused ==> !reg.has_backing(backing@),
        res is Refused || res is Detach,
{
    if reg.has_backing(backing@) && res is Refused {
        let id = choose|id: u32|
            #[trigger] reg.devices.contains_key(id) && reg.devices[id].backing == backing@;
        assert(answers_to(reg, id, backing@, canon, canons));
    }
}

/// Where a device's path leads is what was found for its id.
pub proof fn canonical_paths_are_looked_up(
    canons: Seq<(u32, Option<String>)>,
    first: (u32, Option<String>),
    id: u32,
)
    ensures
        canonical(Seq::empty(), id) is None,
        canonical(seq![first] + canons, id) == if first.0 == id {
            opt_view(first.1)
        } else {
            canonical(canons, id)
        },
{
    assert((seq![first] + canons).skip(1) =~= canons);
}

/// A request to attach or to shut down is handed on as it is.
pub proof fn other_requests_are_handed_on(
    reg: Registry,
    req: Request,
    canon: Option<Seq<char>>,
    canons: Seq<(u32, Option<String>)>,
    after: Registry,
    res: Dispatch,
)
    requires
        serves(reg, req, canon, canons, after, res),
    ensures
        req matches Request::Add { spec } ==> (res matches Dispatch::Attach { spec: s } && s
            == spec) && after == reg,
        req is Shutdown <==> res is Shutdown,
        req is Shutdown ==> after == reg,
        req matches Request::Del { target } ==> (target.dev_id is Some && target.backing is None
            ==> (res matches Dispatch::Detach { dev_id } && dev_id == target.dev_id->0) && after
            == reg),
{
}

/// What a device starts with: without a save a fresh history under the given
/// generation; with one, the saved history, as it was if the save is complete,
/// and otherwise flagged and counted as changed everywhere. A save that does
/// not load is never passed over.
pub proof fn devices_start_where_they_were(
    raw: Seq<u8>,
    dev_size: u64,
    granularity: u64,
    generation: u64,
)
    ensures
        ({
            let loaded = decode(raw, dev_size, granularity);
            let start = starting_map(Some(raw), dev_size, granularity, generation);
            &&& start is Ok <==> loaded is Ok
            &&& loaded is Err ==> start is Err && start->Err_0 == loaded->Err_0
            &&& loaded matches Ok((map, clean)) ==> (start matches Ok((from, flagged)) && {
                &&& flagged == !clean
                &&& from.generation == map.generation
                &&& from.current_era == map.current_era
                &&& from.dev_size == map.dev_size
                &&& from.eras.len() == map.eras.len()
                &&& clean ==> from.eras == map.eras
                &&& !clean ==> forall|i: int|
                    0 <= i < map.eras.len() ==> (#[trigger] from.eras[i]) >= map.current_era
                        && from.eras[i] >= map.eras[i]
            })
        }),
        ({
            let start = starting_map(None, dev_size, granularity, generation);
            &&& start is Ok <==> crate::era::valid_granularity(granularity)
            &&& start matches Ok((map, flagged)) ==> {
                &&& !flagged
                &&& map.generation == generation
                &&& map.current_era == 1
                &&& map.dev_size == dev_size
                &&& map.granularity == granularity
                &&& forall|i: int| 0 <= i < map.eras.len() ==> (#[trigger] map.eras[i]) == 0
            }
        }),
{
}

/// A device can be attached exactly if its size is a whole number of sectors,
/// its backing is not attached yet, and its save, if it has one, loads; and
/// otherwise the first of these that fails is the reason.
pub proof fn attaching_is_refused_for_a_reason(
    reg: Registry,
    backing: Seq<char>,
    granularity: u64,
    meta: Option<Seq<char>>,
    dev_size: u64,
    saved: Option<Seq<u8>>,
    e: ManagerError,
)
    ensures
        can_add(reg, backing, granularity, dev_size, saved) <==> {
            &&& dev_size > 0 && dev_size % 512 == 0
            &&& !(exists|id: u32|
                #[trigger] reg.devices.contains_key(id) && reg.devices[id].backing == backing)
            &&& saved is Some ==> decode(saved->0, dev_size, granularity) is Ok
            &&& saved is None ==> crate::era::valid_granularity(granularity)
        },
        add_refusal(reg, backing, granularity, meta, dev_size, saved, e) ==> {
            &&& !can_add(reg, backing, granularity, dev_size, saved)
            &&& e is BadSize <==> dev_size == 0 || dev_size % 512 != 0
            &&& e matches ManagerError::BadSize { size } ==> size == dev_size
            &&& e is AlreadyAttached <==> dev_size > 0 && dev_size % 512 == 0 && reg.has_backing(
                backing,
            )
            &&& e matches ManagerError::AlreadyAttached { backing: b } ==> b@ == backing
            &&& e matches ManagerError::Load { path, why } ==> saved is Some && decode(
                saved->0,
                dev_size,
                granularity,
            ) is Err && why == decode(saved->0, dev_size, granularity)->Err_0 && (meta is Some
                ==> path@ == meta->0)
            &&& e matches ManagerError::BadGranularity { granularity: g } ==> g == granularity
                && saved is None && !crate::era::valid_granularity(granularity)
        },
{
}

/// Devices that exited are forgotten with their maps, and no others.
pub proof fn only_exited_devices_are_forgotten(reg: Registry, ids: Seq<u32>, id: u32)
    requires
        reg.wf(),
    ensures
        reg.without_all(ids).devices.contains_key(id) <==> reg.devices.contains_key(id)
            && !ids.contains(id),
        reg.without_all(ids).devices.contains_key(id) ==> reg.without_all(ids).devices[id]
            == reg.devices[id] && reg.without_all(ids).map_of(id) == reg.map_of(id),
        reg.devices.contains_key(id) && ids.contains(id) ==> !reg.without_all(
            ids,
        ).states.contains_key(reg.devices[id].ticket),
        forall|t: u64|
            #[trigger] reg.states.contains_key(t) && !reg.is_attached(t) ==> reg.without_all(
                ids,
            ).states.contains_key(t) && reg.without_all(ids).states[t] == reg.states[t],
        reg.without_all(ids).next_ticket == reg.next_ticket,
    decreases ids.len(),
{
    if ids.len() > 0 {
        let front = ids.drop_last();
        let last = ids.last();
        let mid = reg.without_all(front);
        only_exited_devices_are_forgotten(reg, front, id);
        only_exited_devices_are_forgotten(reg, front, last);
        assert(ids.contains(id) <==> front.contains(id) || id == last) by {
            if ids.contains(id) {
                let k = choose|k: int| 0 <= k < ids.len() && ids[k] == id;
                if k < ids.len() - 1 {
                    assert(front[k] == id);
                }
            }
            if front.contains(id) {
                let k = choose|k: int| 0 <= k < front.len() && front[k] == id;
                assert(ids[k] == id);
            }
            assert(ids[ids.len() - 1] == last);
        }
        if mid.devices.contains_key(last) && reg.devices.contains_key(id) && id != last {
            assert(reg.devices[id].ticket != reg.devices[last].ticket);
        }
        assert forall|t: u64|
            #[trigger] reg.states.contains_key(t) && !reg.is_attached(t) implies reg.without_all(
            ids,
        ).states.contains_key(t) && reg.without_all(ids).states[t] == reg.states[t] by {
            assert(mid.states.contains_key(t));
            if mid.devices.contains_key(last) {
                assert(reg.devices.contains_key(last));
                assert(reg.devices[last].ticket != t);
            }
        }
    }
}

/// A refusal says in words which device, path, era or size it is about.
pub proof fn refusals_name_their_subject(e: ManagerError)
    ensures
        e matches ManagerError::NotManaged { dev_id } ==> refusal(e) == "device "@ + decimal(
            dev_id as nat,
        ) + " is not managed by this daemon"@,
        e matches ManagerError::BadSize { size } ==> refusal(e) == "backing size "@ + decimal(
            size as nat,
        ) + " must be a non-zero multiple of 512"@,
        e matches ManagerError::AlreadyAttached { backing } ==> refusal(e) == "'"@ + backing@
            + "' is already attached"@,
        e matches ManagerError::StaleCursor { since } ==> refusal(e) == "since "@ + decimal(
            since as nat,
        ) + " is not in this device's era history"@,
        e matches ManagerError::OtherHistory { given, current } ==> refusal(e) == "generation "@
            + given@ + " is not this device's history ("@ + current@ + ")"@,
        e matches ManagerError::NoSuchBacking { backing } ==> refusal(e)
            == "no tracked device with backing '"@ + backing@ + "'"@,
        e matches ManagerError::NotStarted { backing, cause } ==> refusal(e)
            == "start device for '"@ + backing@ + "': "@ + cause@,
        e matches ManagerError::Load { path, why } ==> refusal(e) == load_complaint(why, path@),
        e is BothGiven ==> refusal(e) == "specify either dev_id or backing, not both"@,
        e is NoneGiven ==> refusal(e) == "request needs dev_id or backing"@,
{
}

/// After a checkpoint of a device, nothing on it has changed since the era
/// that was closed.
pub proof fn a_checkpoint_starts_an_empty_diff(
    reg: Registry,
    after: Registry,
    id: u32,
    ranges: Seq<DirtyRange>,
)
    requires
        reg.wf(),
        reg.devices.contains_key(id),
        reg.map_of(id).current_era < u32::MAX,
        forall|i: int|
            0 <= i < reg.map_of(id).eras.len() ==> reg.map_of(id).eras[i] <= reg.map_of(
                id,
            ).current_era,
        after == reg.with_map(id, reg.map_of(id).checkpointed()) || all_checkpointed(reg, after),
        is_diff(after.map_of(id), reg.map_of(id).current_era, ranges),
    ensures
        ranges.len() == 0,
{
    assert(reg.states.contains_key(reg.devices[id].ticket));
    crate::cbt::checkpoint_leaves_empty_diff(reg.map_of(id), ranges);
}

/// A ticket is attached exactly when some device goes by it: a registry
/// without devices has none, and the ticket of each device is one.
pub proof fn tickets_belong_to_devices(reg: Registry, ticket: u64)
    ensures
        reg.is_attached(ticket) ==> exists|id: u32| #[trigger]
            reg.devices.contains_key(id) && reg.devices[id].ticket == ticket,
        forall|id: u32| #[trigger]
            reg.devices.contains_key(id) ==> reg.is_attached(reg.devices[id].ticket),
{
}

} // verus!
