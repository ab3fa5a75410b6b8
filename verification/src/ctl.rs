//! The daemon's control interface: which request leads to what.

use vstd::prelude::*;

use crate::era::{is_diff, total_len};
use crate::json::opt_view;
use crate::manager::{
    accepts_cursor, all_checkpointed, answers_to, describes, generation_text, tells_checkpoint,
    CheckpointReply, DeviceManager, DeviceSpec, DumpReply, ManagerError, Registry, StatusReply,
    Target,
};

verus! {

/// Where the daemon listens unless told otherwise.
pub const DEFAULT_SOCK: &'static str = "/run/ublkera/daemon.sock";

/// A request to the daemon.
pub enum Request {
    Add { spec: DeviceSpec },
    Del { target: Target },
    List,
    Status { target: Target },
    Checkpoint { target: Target },
    CheckpointAll,
    Dump { target: Target, since: u32, generation: Option<String> },
    Shutdown,
}

/// What a request leads to.
pub enum Dispatch {
    /// attach a device
    Attach { spec: DeviceSpec },
    /// detach a device
    Detach { dev_id: u32 },
    List { list: Vec<StatusReply> },
    Status { status: StatusReply },
    Checkpoint { checkpoint: CheckpointReply },
    CheckpointAll { checkpoints: Vec<CheckpointReply> },
    Dump { dump: DumpReply },
    Shutdown,
    Refused { why: ManagerError },
}

/// `target` stands for device `id`.
pub open spec fn means(
    reg: Registry,
    target: Target,
    canon: Option<Seq<char>>,
    canons: Seq<(u32, Option<String>)>,
    id: u32,
) -> bool {
    match (target.dev_id, target.backing) {
        (Some(given), None) => id == given,
        (None, Some(b)) => answers_to(reg, id, b@, canon, canons) && forall|other: u32|
            other < id ==> !answers_to(reg, other, b@, canon, canons),
        _ => false,
    }
}

/// `target` stands for no device, and `why` says so.
pub open spec fn means_nothing(
    reg: Registry,
    target: Target,
    canon: Option<Seq<char>>,
    canons: Seq<(u32, Option<String>)>,
    why: ManagerError,
) -> bool {
    match (target.dev_id, target.backing) {
        (Some(_), Some(_)) => why matches ManagerError::BothGiven,
        (None, None) => why matches ManagerError::NoneGiven,
        (None, Some(b)) => (why matches ManagerError::NoSuchBacking { backing } && backing@ == b@)
            && forall|id: u32| !answers_to(reg, id, b@, canon, canons),
        (Some(_), None) => false,
    }
}

/// No device with this id is attached, and `why` says so.
pub open spec fn not_managed(reg: Registry, id: u32, why: ManagerError) -> bool {
    !reg.devices.contains_key(id) && (why matches ManagerError::NotManaged { dev_id } && dev_id
        == id)
}

/// A cursor does not belong to the history of device `id`, and `why` says so.
pub open spec fn cursor_refused(
    reg: Registry,
    id: u32,
    since: u32,
    generation: Option<Seq<char>>,
    why: ManagerError,
) -> bool {
    let map = reg.map_of(id);
    &&& reg.devices.contains_key(id)
    &&& if generation is Some && generation != Some(generation_text(map.generation)) {
        why matches ManagerError::OtherHistory { given, current } && Some(given@) == generation
            && current@ == generation_text(map.generation)
    } else {
        since >= map.current_era && (why matches ManagerError::StaleCursor { since: s } && s
            == since)
    }
}

/// `reply` says what changed on device `id` since an era.
pub open spec fn tells_diff(reg: Registry, id: u32, since: u32, reply: DumpReply) -> bool {
    let map = reg.map_of(id);
    &&& reply.dev_id == id
    &&& reply.generation@ == generation_text(map.generation)
    &&& reply.current_era == map.current_era
    &&& reply.since == since
    &&& reply.granularity == map.granularity
    &&& is_diff(map, since, reply.ranges@)
    &&& reply.dirty_bytes == total_len(reply.ranges@)
}

/// What serving a request leads to: the registry after it, and the outcome.
/// `canon` is where the backing path of the request leads, `canons` where those
/// of the devices do.
pub open spec fn serves(
    before: Registry,
    req: Request,
    canon: Option<Seq<char>>,
    canons: Seq<(u32, Option<String>)>,
    after: Registry,
    res: Dispatch,
) -> bool {
    &&& !(res is Checkpoint) && !(res is CheckpointAll) ==> after == before
    &&& match (req, res) {
        (Request::Add { spec }, Dispatch::Attach { spec: s }) => s == spec,
        (Request::Add { .. }, _) => false,
        (Request::Del { target }, Dispatch::Detach { dev_id }) => means(
            before,
            target,
            canon,
            canons,
            dev_id,
        ),
        (Request::Del { target }, Dispatch::Refused { why }) => means_nothing(
            before,
            target,
            canon,
            canons,
            why,
        ),
        (Request::Del { .. }, _) => false,
        (Request::List, Dispatch::List { list: devices }) => {
            &&& forall|i: int|
                0 <= i < devices@.len() ==> before.devices.contains_key(
                    (#[trigger] devices@[i]).dev_id,
                ) && describes(before, devices@[i].dev_id, devices@[i])
            &&& forall|i: int, j: int|
                0 <= i < j < devices@.len() ==> (#[trigger] devices@[i]).dev_id < (
                #[trigger] devices@[j]).dev_id
            &&& forall|id: u32| #[trigger]
                before.devices.contains_key(id) ==> exists|i: int|
                    0 <= i < devices@.len() && (#[trigger] devices@[i]).dev_id == id
        },
        (Request::List, _) => false,
        (Request::Status { target }, Dispatch::Status { status: reply }) => {
            &&& means(before, target, canon, canons, reply.dev_id)
            &&& before.devices.contains_key(reply.dev_id)
            &&& describes(before, reply.dev_id, reply)
        },
        (Request::Status { target }, Dispatch::Refused { why }) => {
            ||| means_nothing(before, target, canon, canons, why)
            ||| exists|id: u32| #[trigger]
                means(before, target, canon, canons, id) && not_managed(
                    before,
                    id,
                    why,
                )
        },
        (Request::Status { .. }, _) => false,
        (Request::Checkpoint { target }, Dispatch::Checkpoint { checkpoint: reply }) => {
            &&& means(before, target, canon, canons, reply.dev_id)
            &&& before.devices.contains_key(reply.dev_id)
            &&& tells_checkpoint(before, reply.dev_id, reply)
            &&& after == before.with_map(
                reply.dev_id,
                before.map_of(reply.dev_id).checkpointed(),
            )
        },
        (Request::Checkpoint { target }, Dispatch::Refused { why }) => {
            ||| means_nothing(before, target, canon, canons, why)
            ||| exists|id: u32| #[trigger]
                means(before, target, canon, canons, id) && not_managed(
                    before,
                    id,
                    why,
                )
        },
        (Request::Checkpoint { .. }, _) => false,
        (Request::CheckpointAll, Dispatch::CheckpointAll { checkpoints: devices }) => {
            &&& all_checkpointed(before, after)
            &&& forall|i: int|
                0 <= i < devices@.len() ==> before.devices.contains_key(
                    (#[trigger] devices@[i]).dev_id,
                ) && tells_checkpoint(before, devices@[i].dev_id, devices@[i])
            &&& forall|i: int, j: int|
                0 <= i < j < devices@.len() ==> (#[trigger] devices@[i]).dev_id < (
                #[trigger] devices@[j]).dev_id
            &&& forall|id: u32| #[trigger]
                before.devices.contains_key(id) ==> exists|i: int|
                    0 <= i < devices@.len() && (#[trigger] devices@[i]).dev_id == id
        },
        (Request::CheckpointAll, _) => false,
        (Request::Dump { target, since, generation }, Dispatch::Dump { dump: reply }) => {
            &&& means(before, target, canon, canons, reply.dev_id)
            &&& before.devices.contains_key(reply.dev_id)
            &&& accepts_cursor(
                before.map_of(reply.dev_id),
                since,
                opt_view(generation),
            )
            &&& tells_diff(before, reply.dev_id, since, reply)
        },
        (Request::Dump { target, since, generation }, Dispatch::Refused { why }) => {
            ||| means_nothing(before, target, canon, canons, why)
            ||| exists|id: u32| #[trigger]
                means(before, target, canon, canons, id) && (not_managed(
                    before,
                    id,
                    why,
                ) || cursor_refused(before, id, since, opt_view(generation), why))
        },
        (Request::Dump { .. }, _) => false,
        (Request::Shutdown, Dispatch::Shutdown) => true,
        (Request::Shutdown, _) => false,
    }
}

/// The target of a request that has one.
pub open spec fn target_of(req: Request) -> Option<Target> {
    match req {
        Request::Del { target } => Some(target),
        Request::Status { target } => Some(target),
        Request::Checkpoint { target } => Some(target),
        Request::Dump { target, .. } => Some(target),
        _ => None,
    }
}

/// Two requests ask the same, but for the target.
pub open spec fn ask_the_same(a: Request, b: Request) -> bool {
    match (a, b) {
        (Request::Del { .. }, Request::Del { .. }) => true,
        (Request::Status { .. }, Request::Status { .. }) => true,
        (Request::Checkpoint { .. }, Request::Checkpoint { .. }) => true,
        (
            Request::Dump { since, generation, .. },
            Request::Dump { since: s, generation: g, .. },
        ) => since == s && opt_view(generation) == opt_view(g),
        _ => false,
    }
}

/// A device can be named by its backing path in place of its id: the request
/// gets the same answer and has the same effect, where no device with a
/// smaller id answers to that path.
pub proof fn a_path_serves_as_an_id(
    reg: Registry,
    by_path: Request,
    by_id: Request,
    id: u32,
    backing: String,
    canon: Option<Seq<char>>,
    other: Option<Seq<char>>,
    canons: Seq<(u32, Option<String>)>,
    after: Registry,
    res: Dispatch,
)
    requires
        ask_the_same(by_path, by_id),
        target_of(by_path) == Some(Target { dev_id: None, backing: Some(backing) }),
        target_of(by_id) == Some(Target { dev_id: Some(id), backing: None }),
        answers_to(reg, id, backing@, canon, canons),
        forall|smaller: u32| smaller < id ==> !answers_to(reg, smaller, backing@, canon, canons),
    ensures
        serves(reg, by_path, canon, canons, after, res) <==> serves(
            reg,
            by_id,
            other,
            canons,
            after,
            res,
        ),
{
    let path = Target { dev_id: None, backing: Some(backing) };
    let number = Target { dev_id: Some(id), backing: None };
    assert forall|x: u32| means(reg, path, canon, canons, x) <==> x == id by {}
    assert(means(reg, path, canon, canons, id));
    assert(means(reg, number, other, canons, id));
    assert forall|why: ManagerError|
        !means_nothing(reg, path, canon, canons, why) && !means_nothing(
            reg,
            number,
            other,
            canons,
            why,
        ) by {}
}

/// The daemon shuts down exactly when asked to, and a request that is refused
/// changes nothing.
pub proof fn only_shutdown_shuts_down(
    before: Registry,
    req: Request,
    canon: Option<Seq<char>>,
    canons: Seq<(u32, Option<String>)>,
    after: Registry,
    res: Dispatch,
)
    requires
        serves(before, req, canon, canons, after, res),
    ensures
        res is Shutdown <==> req is Shutdown,
        res is Refused ==> after == before,
{
}

/// Serve a request as far as the registry goes. `canon` is where the backing
/// path of the request leads, `canons` where those of the devices do.
pub fn dispatch(
    manager: &mut DeviceManager,
    req: Request,
    canon: Option<String>,
    canons: &Vec<(u32, Option<String>)>,
) -> (res: Dispatch)
    requires
        old(manager).wf(),
        match req {
            Request::Checkpoint { target } => forall|id: u32| #[trigger]
                means(old(manager)@, target, opt_view(canon), canons@, id)
                    && old(manager)@.devices.contains_key(id) ==> old(manager)@.map_of(
                    id,
                ).current_era < u32::MAX,
            Request::CheckpointAll => forall|id: u32| #[trigger]
                old(manager)@.devices.contains_key(id) ==> old(manager)@.map_of(id).current_era
                    < u32::MAX,
            _ => true,
        },
    ensures
        final(manager).wf(),
        serves(old(manager)@, req, opt_view(canon), canons@, final(manager)@, res),
{
    match req {
        Request::Add { spec } => Dispatch::Attach { spec },
        Request::Del { target } => match manager.resolve(&target, canon, canons) {
            Ok(dev_id) => Dispatch::Detach { dev_id },
            Err(why) => Dispatch::Refused { why },
        },
        Request::List => Dispatch::List { list: manager.list() },
        Request::Status { target } => match manager.resolve(&target, canon, canons) {
            Ok(dev_id) => match manager.status(dev_id) {
                Ok(reply) => Dispatch::Status { status: reply },
                Err(why) => {
                    proof {
                        assert(means(manager@, target, opt_view(canon), canons@, dev_id));
                    }
                    Dispatch::Refused { why }
                },
            },
            Err(why) => Dispatch::Refused { why },
        },
        Request::Checkpoint { target } => match manager.resolve(&target, canon, canons) {
            Ok(dev_id) => {
                proof {
                    assert(means(manager@, target, opt_view(canon), canons@, dev_id));
                }
                match manager.checkpoint(dev_id) {
                    Ok(reply) => Dispatch::Checkpoint { checkpoint: reply },
                    Err(why) => Dispatch::Refused { why },
                }
            },
            Err(why) => Dispatch::Refused { why },
        },
        Request::CheckpointAll => Dispatch::CheckpointAll { checkpoints: manager.checkpoint_all() },
        Request::Dump { target, since, generation } => match manager.resolve(
            &target,
            canon,
            canons,
        ) {
            Ok(dev_id) => {
                proof {
                    assert(means(manager@, target, opt_view(canon), canons@, dev_id));
                }
                match manager.dump(dev_id, since, generation) {
                    Ok(reply) => Dispatch::Dump { dump: reply },
                    Err(why) => Dispatch::Refused { why },
                }
            },
            Err(why) => Dispatch::Refused { why },
        },
        Request::Shutdown => Dispatch::Shutdown,
    }
}

} // verus!
