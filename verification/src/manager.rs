//! Runtime registry of tracked devices. Devices are attached and detached
//! while the daemon lives, each with its own era map.
//!
//! An era map is known by a ticket from the moment its device starts, before
//! the device has an id, to the moment its supervisor is done with it, after
//! the device was detached.

use std::collections::HashMap;
use vstd::prelude::*;
use vstd::std_specs::iter::IteratorSpec;

use crate::era::{is_diff, total_len, DirtyRange, EraMap, EraState};
use crate::json::opt_view;
use crate::meta::{
    complain_granularity, decode, encode, granularity_complaint, load_complaint, LoadError,
};
use crate::target::{can_turn, handle_io_cmd, turn_of, turned_map, IoPhase, IoTurn};
use crate::text::{decimal, hex_digits, push_decimal, push_hex, same};
use crate::ublk::IoCmd;

verus! {

broadcast use vstd::std_specs::hash::group_hash_axioms;

pub fn default_granularity() -> (n: u64)
    ensures
        n == 65536,
{
    64 * 1024
}

pub fn default_dev_id() -> (n: i32)
    ensures
        n == -1,
{
    -1
}

pub fn default_queues() -> (n: u16)
    ensures
        n == 1,
{
    1
}

pub fn default_depth() -> (n: u16)
    ensures
        n == 64,
{
    64
}

pub fn default_buf_size() -> (n: u32)
    ensures
        n == 524288,
{
    512 * 1024
}

/// What is asked for when a device is attached.
pub struct DeviceSpec {
    pub backing: String,
    pub granularity: u64,
    /// where the era map is persisted
    pub meta: Option<String>,
    /// -1 to have one allocated
    pub dev_id: i32,
    pub queues: u16,
    pub depth: u16,
    pub buf_size: u32,
    /// buffered IO on the backing file instead of direct IO
    pub buffered: bool,
}

/// A device that is attached.
pub struct Managed {
    pub backing: String,
    pub meta: Option<String>,
    pub ticket: u64,
}

/// What is known of a device that is attached.
#[verifier::ext_equal]
pub struct Device {
    pub backing: Seq<char>,
    pub meta: Option<Seq<char>>,
    pub ticket: u64,
}

impl View for Managed {
    type V = Device;

    open spec fn view(&self) -> Device {
        Device { backing: self.backing@, meta: opt_view(self.meta), ticket: self.ticket }
    }
}

/// What the registry holds.
#[verifier::ext_equal]
pub struct Registry {
    /// the attached devices by id
    pub devices: Map<u32, Device>,
    /// the era maps by ticket
    pub states: Map<u64, EraMap>,
    /// tickets below were given out
    pub next_ticket: u64,
}

pub struct DeviceManager {
    pub devices: HashMap<u32, Managed>,
    pub states: HashMap<u64, EraState>,
    pub next_ticket: u64,
}

impl View for DeviceManager {
    type V = Registry;

    open spec fn view(&self) -> Registry {
        Registry {
            devices: self.devices@.map_values(|m: Managed| m@),
            states: self.states@.map_values(|s: EraState| s@),
            next_ticket: self.next_ticket,
        }
    }
}

impl Registry {
    pub open spec fn wf(self) -> bool {
        &&& forall|id: u32| #[trigger]
            self.devices.contains_key(id) ==> self.states.contains_key(self.devices[id].ticket)
        &&& forall|a: u32, b: u32|
            #![trigger self.devices[a], self.devices[b]]
            self.devices.contains_key(a) && self.devices.contains_key(b) && a != b
                ==> self.devices[a].ticket != self.devices[b].ticket
        &&& forall|t: u64| #[trigger]
            self.states.contains_key(t) ==> t < self.next_ticket && self.states[t].wf()
    }

    /// The era map of an attached device.
    pub open spec fn map_of(self, id: u32) -> EraMap {
        self.states[self.devices[id].ticket]
    }

    /// A backing path is attached.
    pub open spec fn has_backing(self, backing: Seq<char>) -> bool {
        exists|id: u32|
            #[trigger] self.devices.contains_key(id) && self.devices[id].backing == backing
    }

    /// A ticket belongs to an attached device.
    pub open spec fn is_attached(self, ticket: u64) -> bool {
        exists|id: u32|
            #[trigger] self.devices.contains_key(id) && self.devices[id].ticket == ticket
    }

    /// The registry with one device's era map replaced.
    pub open spec fn with_map(self, id: u32, map: EraMap) -> Registry {
        Registry { states: self.states.insert(self.devices[id].ticket, map), ..self }
    }

    /// The registry after a device whose supervisor exited was removed.
    pub open spec fn without(self, id: u32) -> Registry {
        if self.devices.contains_key(id) {
            Registry {
                devices: self.devices.remove(id),
                states: self.states.remove(self.devices[id].ticket),
                ..self
            }
        } else {
            self
        }
    }

    /// The registry after all of `ids` were removed.
    pub open spec fn without_all(self, ids: Seq<u32>) -> Registry
        decreases ids.len(),
    {
        if ids.len() == 0 {
            self
        } else {
            self.without_all(ids.drop_last()).without(ids.last())
        }
    }
}

impl DeviceManager {
    pub open spec fn wf(&self) -> bool {
        self@.wf()
    }

    pub fn new() -> (manager: Self)
        ensures
            manager.wf(),
            manager@ == (Registry {
                devices: Map::empty(),
                states: Map::empty(),
                next_ticket: 0,
            }),
    {
        let manager = DeviceManager {
            devices: HashMap::new(),
            states: HashMap::new(),
            next_ticket: 0,
        };
        proof {
            assert(manager@.devices =~= Map::empty());
            assert(manager@.states =~= Map::empty());
        }
        manager
    }

    /// The ids of all attached devices, in order.
    pub fn ids(&self) -> (ids: Vec<u32>)
        ensures
            forall|i: int, j: int| 0 <= i < j < ids@.len() ==> ids@[i] < ids@[j],
            forall|id: u32| ids@.contains(id) <==> self@.devices.contains_key(id),
    {
        let mut ids: Vec<u32> = Vec::new();
        proof {
            let all = self.devices.keys().remaining();
            assert forall|x: u32| #[trigger] self.devices@.contains_key(x) implies exists|k: int|
                0 <= k < all.len() && *(#[trigger] all[k]) == x by {
                assert(all.unref().to_set().contains(x));
                let k = choose|k: int| 0 <= k < all.unref().len() && all.unref()[k] == x;
                assert(*all[k] == x);
            }
        }
        for id in it: self.devices.keys()
            invariant
                it.seq().no_duplicates(),
                it.seq().unref().to_set() == self.devices@.dom(),
                forall|i: int, j: int| 0 <= i < j < ids@.len() ==> ids@[i] < ids@[j],
                forall|x: u32|
                    ids@.contains(x) ==> exists|k: int|
                        0 <= k < it.index() && *(#[trigger] it.seq()[k]) == x,
                forall|k: int| 0 <= k < it.index() ==> ids@.contains(*(#[trigger] it.seq()[k])),
                forall|x: u32| ids@.contains(x) ==> self.devices@.contains_key(x),
                forall|x: u32| #[trigger]
                    self.devices@.contains_key(x) ==> ids@.contains(x) || exists|k: int|
                        it.index() <= k < it.seq().len() && *(#[trigger] it.seq()[k]) == x,
        {
            proof {
                assert(it.seq().unref()[it.index()] == *id);
                assert(it.seq().unref().to_set().contains(*id));
            }
            insert_sorted(&mut ids, *id);
        }
        ids
    }
}

/// Put `x`, which is not there, into an ascending list.
fn insert_sorted(list: &mut Vec<u32>, x: u32)
    requires
        forall|i: int, j: int| 0 <= i < j < old(list)@.len() ==> old(list)@[i] < old(list)@[j],
        !old(list)@.contains(x),
    ensures
        forall|i: int, j: int|
            0 <= i < j < final(list)@.len() ==> final(list)@[i] < final(list)@[j],
        forall|y: u32| final(list)@.contains(y) <==> old(list)@.contains(y) || y == x,
{
    let ghost before = list@;
    let n: usize = list.len();
    let mut i: usize = 0;
    while i < n && list[i] < x
        invariant
            i <= n == list@.len(),
            list@ == before,
            forall|k: int| 0 <= k < i ==> before[k] < x,
        decreases n - i,
    {
        i = i + 1;
    }
    proof {
        if i < n {
            assert(before.contains(before[i as int]));
        }
    }
    list.insert(i, x);
    proof {
        let after = list@;
        assert forall|y: u32| after.contains(y) <==> before.contains(y) || y == x by {
            if before.contains(y) {
                let k = choose|k: int| 0 <= k < before.len() && before[k] == y;
                if k < i {
                    assert(after[k] == y);
                } else {
                    assert(after[k + 1] == y);
                }
            }
            if y == x {
                assert(after[i as int] == x);
            }
            if after.contains(y) {
                let k = choose|k: int| 0 <= k < after.len() && after[k] == y;
                if k < i {
                    assert(before[k] == y);
                } else if k > i {
                    assert(before[k - 1] == y);
                }
            }
        }
    }
}

/// Why a request was refused.
#[derive(Debug)]
pub enum ManagerError {
    NotManaged { dev_id: u32 },
    BadSize { size: u64 },
    AlreadyAttached { backing: String },
    Load { path: String, why: LoadError },
    BadGranularity { granularity: u64 },
    /// the device did not start
    NotStarted { backing: String, cause: String },
    /// the supervisor died without reporting
    Died { backing: String },
    TimedOut { backing: String },
    StaleCursor { since: u32 },
    OtherHistory { given: String, current: String },
    BothGiven,
    NoneGiven,
    NoSuchBacking { backing: String },
}

/// A device that is starting.
pub struct Started {
    pub ticket: u64,
    pub recovered_unclean: bool,
    /// what to persist before the device goes live: a map that is marked
    /// unclean until the final save
    pub marker: Option<Vec<u8>>,
}

/// What came of starting a device.
#[derive(Debug)]
pub enum Startup {
    Ready { dev_id: u32 },
    Failed { cause: String },
    /// the supervisor went away without a word
    Disconnected,
    TimedOut,
}

/// A device that was attached.
#[derive(Debug)]
pub struct AddReply {
    pub dev_id: u32,
    pub backing: String,
    pub dev_size: u64,
    pub granularity: u64,
    pub generation: String,
    pub current_era: u32,
    pub recovered_unclean: bool,
}

/// The state of a device.
#[derive(Debug)]
pub struct StatusReply {
    pub dev_id: u32,
    pub backing: String,
    pub dev_size: u64,
    pub granularity: u64,
    pub generation: String,
    pub current_era: u32,
    pub nr_chunks: u64,
    pub written_chunks: u64,
    pub meta_path: Option<String>,
}

/// A checkpoint that was taken.
#[derive(Debug)]
pub struct CheckpointReply {
    pub dev_id: u32,
    pub backing: String,
    pub closed_era: u32,
    pub current_era: u32,
    /// where to persist what
    pub save: Option<(String, Vec<u8>)>,
}

/// What changed.
#[derive(Debug)]
pub struct DumpReply {
    pub dev_id: u32,
    pub generation: String,
    pub current_era: u32,
    pub since: u32,
    pub granularity: u64,
    pub dirty_bytes: u64,
    pub ranges: Vec<DirtyRange>,
}

/// A device that was taken out of the registry.
#[derive(Debug)]
pub struct Detached {
    pub backing: String,
    pub ticket: u64,
}

/// How a generation is written: 16 hexadecimal digits.
pub open spec fn generation_text(generation: u64) -> Seq<char> {
    hex_digits(generation as nat, 16)
}

fn write_generation(generation: u64) -> (t: String)
    ensures
        t@ == generation_text(generation),
{
    let mut t: String = String::new();
    push_hex(&mut t, generation, 16);
    proof {
        assert(Seq::<char>::empty() + generation_text(generation) =~= generation_text(generation));
    }
    t
}

/// The map that a device starts with: what was saved, or a fresh history. A
/// saved map that is not complete counts as changed everywhere.
pub open spec fn starting_map(
    saved: Option<Seq<u8>>,
    dev_size: u64,
    granularity: u64,
    generation: u64,
) -> Result<(EraMap, bool), LoadError> {
    match saved {
        Some(raw) => match decode(raw, dev_size, granularity) {
            Ok((map, clean)) => Ok(
                (
                    if clean {
                        map
                    } else {
                        map.all_dirty()
                    },
                    !clean,
                ),
            ),
            Err(e) => Err(e),
        },
        None => if crate::era::valid_granularity(granularity) {
            Ok((EraMap::fresh(dev_size, granularity, generation), false))
        } else {
            Err(LoadError::BadGranularity { granularity })
        },
    }
}

/// The map that a device starts with, and whether it was recovered from an
/// incomplete save.
fn starting_state(
    saved: &Option<Vec<u8>>,
    dev_size: u64,
    granularity: u64,
    generation: u64,
) -> (res: Result<(EraState, bool), LoadError>)
    requires
        saved is None && crate::era::valid_granularity(granularity) ==> crate::era::chunk_count(
            dev_size,
            granularity,
        ) <= usize::MAX,
    ensures
        match (
            res,
            starting_map(
                match *saved {
                    Some(raw) => Some(raw@),
                    None => None,
                },
                dev_size,
                granularity,
                generation,
            ),
        ) {
            (Ok((state, recovered)), Ok((map, r))) => state.wf() && state@ == map && recovered == r,
            (Err(e), Err(w)) => e == w,
            _ => false,
        },
{
    match saved {
        Some(raw) => match EraState::load(raw, dev_size, granularity) {
            Ok((mut state, clean)) => {
                if !clean {
                    state.mark_all_dirty();
                }
                Ok((state, !clean))
            },
            Err(e) => Err(e),
        },
        None => match EraState::new(dev_size, granularity, generation) {
            Ok(state) => Ok((state, false)),
            Err(granularity) => Err(LoadError::BadGranularity { granularity }),
        },
    }
}

/// Why a device cannot be attached, if so.
pub open spec fn add_refusal(
    reg: Registry,
    backing: Seq<char>,
    granularity: u64,
    meta: Option<Seq<char>>,
    dev_size: u64,
    saved: Option<Seq<u8>>,
    e: ManagerError,
) -> bool {
    if dev_size == 0 || dev_size % 512 != 0 {
        e matches ManagerError::BadSize { size } && size == dev_size
    } else if reg.has_backing(backing) {
        e matches ManagerError::AlreadyAttached { backing: b } && b@ == backing
    } else {
        match starting_map(saved, dev_size, granularity, 0) {
            Ok(_) => false,
            Err(why) => if saved is Some {
                e matches ManagerError::Load { path, why: w } && w == why && path@ == match meta {
                    Some(p) => p,
                    None => Seq::empty(),
                }
            } else {
                e matches ManagerError::BadGranularity { granularity: g } && g == granularity
            },
        }
    }
}

/// A device of this size can be attached.
pub open spec fn can_add(
    reg: Registry,
    backing: Seq<char>,
    granularity: u64,
    dev_size: u64,
    saved: Option<Seq<u8>>,
) -> bool {
    &&& dev_size != 0
    &&& dev_size % 512 == 0
    &&& !reg.has_backing(backing)
    &&& starting_map(saved, dev_size, granularity, 0) is Ok
}

pub open spec fn bytes_view(saved: Option<Vec<u8>>) -> Option<Seq<u8>> {
    match saved {
        Some(raw) => Some(raw@),
        None => None,
    }
}

/// A copy of an optional text.
fn copy_text(t: &Option<String>) -> (copy: Option<String>)
    ensures
        opt_view(copy) == opt_view(*t),
{
    match t {
        Some(s) => Some(s.clone()),
        None => None,
    }
}

impl DeviceManager {
    /// Whether a backing path is attached.
    fn finds_backing(&self, backing: &str) -> (r: bool)
        ensures
            r == self@.has_backing(backing@),
    {
        let ids = self.ids();
        let n: usize = ids.len();
        let mut i: usize = 0;
        while i < n
            invariant
                i <= n == ids@.len(),
                forall|id: u32| ids@.contains(id) <==> self@.devices.contains_key(id),
                forall|k: int| 0 <= k < i ==> self@.devices[#[trigger] ids@[k]].backing != backing@,
            decreases n - i,
        {
            proof {
                assert(ids@.contains(ids@[i as int]));
                assert(self@.devices.contains_key(ids@[i as int]));
            }
            if let Some(m) = self.devices.get(&ids[i]) {
                if same(&m.backing, backing) {
                    return true;
                }
            }
            i = i + 1;
        }
        proof {
            if self@.has_backing(backing@) {
                let id = choose|id: u32|
                    #[trigger] self@.devices.contains_key(id) && self@.devices[id].backing
                        == backing@;
                assert(ids@.contains(id));
                let k = choose|k: int| 0 <= k < ids@.len() && ids@[k] == id;
                assert(self@.devices[ids@[k]].backing != backing@);
            }
        }
        false
    }

    /// Whether a device of this size can be attached for this backing, before
    /// its metadata is looked at.
    pub fn check_add(&self, backing: &str, dev_size: u64) -> (res: Result<(), ManagerError>)
        ensures
            match res {
                Ok(_) => dev_size != 0 && dev_size % 512 == 0 && !self@.has_backing(backing@),
                Err(e) => if dev_size == 0 || dev_size % 512 != 0 {
                    e matches ManagerError::BadSize { size } && size == dev_size
                } else {
                    self@.has_backing(backing@) && (e matches ManagerError::AlreadyAttached {
                        backing: b,
                    } && b@ == backing@)
                },
            },
    {
        if dev_size == 0 || dev_size % 512 != 0 {
            return Err(ManagerError::BadSize { size: dev_size });
        }
        if self.finds_backing(backing) {
            return Err(ManagerError::AlreadyAttached { backing: backing.to_owned() });
        }
        Ok(())
    }

    /// Attach a device: check the request and prepare its era map. `saved` is
    /// what the metadata file holds, if there is one; `generation` is to be
    /// drawn at random. The device is registered once it is up.
    pub fn begin_add(
        &mut self,
        spec: &DeviceSpec,
        dev_size: u64,
        saved: Option<Vec<u8>>,
        generation: u64,
    ) -> (res: Result<Started, ManagerError>)
        requires
            old(self).wf(),
            old(self).next_ticket < u64::MAX,
            saved is None && crate::era::valid_granularity(spec.granularity)
                ==> crate::era::chunk_count(dev_size, spec.granularity) <= usize::MAX,
        ensures
            final(self).wf(),
            res is Ok <==> can_add(
                old(self)@,
                spec.backing@,
                spec.granularity,
                dev_size,
                bytes_view(saved),
            ),
            match res {
                Ok(started) => {
                    let start = starting_map(
                        bytes_view(saved),
                        dev_size,
                        spec.granularity,
                        generation,
                    )->Ok_0;
                    &&& started.ticket == old(self).next_ticket
                    &&& started.recovered_unclean == start.1
                    &&& bytes_view(started.marker) == if spec.meta is Some {
                        Some(encode(start.0, false))
                    } else {
                        None
                    }
                    &&& final(self)@ == (Registry {
                        states: old(self)@.states.insert(started.ticket, start.0),
                        next_ticket: (old(self).next_ticket + 1) as u64,
                        ..old(self)@
                    })
                },
                Err(e) => {
                    &&& final(self)@ == old(self)@
                    &&& add_refusal(
                        old(self)@,
                        spec.backing@,
                        spec.granularity,
                        opt_view(spec.meta),
                        dev_size,
                        bytes_view(saved),
                        e,
                    )
                },
            },
    {
        let ghost before = self@;
        if let Err(e) = self.check_add(&spec.backing, dev_size) {
            return Err(e);
        }
        let (state, recovered) = match starting_state(
            &saved,
            dev_size,
            spec.granularity,
            generation,
        ) {
            Ok(start) => start,
            Err(why) => {
                if saved.is_some() {
                    let path: String = match &spec.meta {
                        Some(p) => p.clone(),
                        None => String::new(),
                    };
                    return Err(ManagerError::Load { path, why });
                }
                return Err(ManagerError::BadGranularity { granularity: spec.granularity });
            },
        };
        let marker: Option<Vec<u8>> = if spec.meta.is_some() {
            Some(state.save(false))
        } else {
            None
        };
        let ticket: u64 = self.next_ticket;
        let ghost map = state@;
        self.states.insert(ticket, state);
        self.next_ticket = ticket + 1;
        proof {
            assert(self@.states =~= before.states.insert(ticket, map));
            assert(self@.devices =~= before.devices);
        }
        Ok(Started { ticket, recovered_unclean: recovered, marker })
    }

    /// A device that was being attached is up, or is not going to be. One that
    /// is up is registered under its id.
    pub fn finish_add(
        &mut self,
        started: &Started,
        spec: &DeviceSpec,
        outcome: Startup,
    ) -> (res: Result<AddReply, ManagerError>)
        requires
            old(self).wf(),
            old(self)@.states.contains_key(started.ticket),
            !old(self)@.is_attached(started.ticket),
        ensures
            final(self).wf(),
            match outcome {
                Startup::Ready { dev_id } => {
                    let map = old(self)@.states[started.ticket];
                    &&& final(self)@ == (Registry {
                        devices: old(self)@.devices.insert(
                            dev_id,
                            Device {
                                backing: spec.backing@,
                                meta: opt_view(spec.meta),
                                ticket: started.ticket,
                            },
                        ),
                        ..old(self)@
                    })
                    &&& res matches Ok(reply) && {
                        &&& reply.dev_id == dev_id
                        &&& reply.backing@ == spec.backing@
                        &&& reply.dev_size == map.dev_size
                        &&& reply.granularity == map.granularity
                        &&& reply.generation@ == generation_text(map.generation)
                        &&& reply.current_era == map.current_era
                        &&& reply.recovered_unclean == started.recovered_unclean
                    }
                },
                Startup::Failed { cause } => final(self)@ == old(self)@ && (res matches Err(
                    ManagerError::NotStarted { backing, cause: c },
                ) && backing@ == spec.backing@ && c@ == cause@),
                Startup::Disconnected => final(self)@ == old(self)@ && (res matches Err(
                    ManagerError::Died { backing },
                ) && backing@ == spec.backing@),
                Startup::TimedOut => final(self)@ == old(self)@ && (res matches Err(
                    ManagerError::TimedOut { backing },
                ) && backing@ == spec.backing@),
            },
    {
        let ghost before = self@;
        match outcome {
            Startup::Failed { cause } => Err(
                ManagerError::NotStarted { backing: spec.backing.clone(), cause },
            ),
            Startup::Disconnected => Err(ManagerError::Died { backing: spec.backing.clone() }),
            Startup::TimedOut => Err(ManagerError::TimedOut { backing: spec.backing.clone() }),
            Startup::Ready { dev_id } => {
                let managed = Managed {
                    backing: spec.backing.clone(),
                    meta: copy_text(&spec.meta),
                    ticket: started.ticket,
                };
                let ghost device = managed@;
                let reply = match self.states.get(&started.ticket) {
                    Some(state) => AddReply {
                        dev_id,
                        backing: spec.backing.clone(),
                        dev_size: state.dev_size,
                        granularity: state.granularity,
                        generation: write_generation(state.generation),
                        current_era: state.current_era(),
                        recovered_unclean: started.recovered_unclean,
                    },
                    None => {
                        return Err(ManagerError::NotManaged { dev_id });
                    },
                };
                self.devices.insert(dev_id, managed);
                proof {
                    assert(self@.devices =~= before.devices.insert(dev_id, device));
                    assert(self@.states =~= before.states);
                    assert forall|a: u32, b: u32|
                        #![trigger self@.devices[a], self@.devices[b]]
                        self@.devices.contains_key(a) && self@.devices.contains_key(b) && a
                            != b implies self@.devices[a].ticket != self@.devices[b].ticket by {
                        if a == dev_id {
                            assert(before.devices.contains_key(b));
                        } else if b == dev_id {
                            assert(before.devices.contains_key(a));
                        } else {
                            assert(before.devices[a].ticket != before.devices[b].ticket);
                        }
                    }
                    assert forall|id: u32| #[trigger]
                        self@.devices.contains_key(id) implies self@.states.contains_key(
                        self@.devices[id].ticket,
                    ) by {
                        if id != dev_id {
                            assert(before.devices.contains_key(id));
                        }
                    }
                }
                Ok(reply)
            },
        }
    }
}

/// Removing a device leaves a well-formed registry.
proof fn lemma_without_wf(reg: Registry, id: u32)
    requires
        reg.wf(),
    ensures
        reg.without(id).wf(),
{
    if reg.devices.contains_key(id) {
        let after = reg.without(id);
        assert forall|a: u32| #[trigger]
            after.devices.contains_key(a) implies after.states.contains_key(
            after.devices[a].ticket,
        ) by {
            assert(reg.devices.contains_key(a));
            assert(reg.devices[a].ticket != reg.devices[id].ticket);
        }
        assert forall|a: u32, b: u32|
            #![trigger after.devices[a], after.devices[b]]
            after.devices.contains_key(a) && after.devices.contains_key(b) && a
                != b implies after.devices[a].ticket != after.devices[b].ticket by {
            assert(reg.devices[a].ticket != reg.devices[b].ticket);
        }
    }
}

/// `reply` describes device `id`.
pub open spec fn describes(reg: Registry, id: u32, reply: StatusReply) -> bool {
    let map = reg.map_of(id);
    &&& reply.dev_id == id
    &&& reply.backing@ == reg.devices[id].backing
    &&& reply.dev_size == map.dev_size
    &&& reply.granularity == map.granularity
    &&& reply.generation@ == generation_text(map.generation)
    &&& reply.current_era == map.current_era
    &&& reply.nr_chunks == map.eras.len()
    &&& reply.written_chunks == map.written()
    &&& opt_view(reply.meta_path) == reg.devices[id].meta
}

/// `reply` tells of a checkpoint of device `id`: the closed era, the new one,
/// and the map to persist, marked unclean as the device stays attached.
pub open spec fn tells_checkpoint(reg: Registry, id: u32, reply: CheckpointReply) -> bool {
    let map = reg.map_of(id);
    let device = reg.devices[id];
    &&& reply.dev_id == id
    &&& reply.backing@ == device.backing
    &&& reply.closed_era == map.current_era
    &&& reply.current_era == map.current_era + 1
    &&& match (reply.save, device.meta) {
        (Some((path, raw)), Some(meta)) => path@ == meta && raw@ == encode(
            map.checkpointed(),
            false,
        ),
        (None, None) => true,
        _ => false,
    }
}

/// A cursor belongs to the history of `map`: the era it names was closed, and
/// the generation that comes with it, if one does, is that of the map.
pub open spec fn accepts_cursor(map: EraMap, since: u32, generation: Option<Seq<char>>) -> bool {
    &&& generation matches Some(g) ==> g == generation_text(map.generation)
    &&& since < map.current_era
}

impl DeviceManager {
    /// Forget devices whose supervisor exited (for instance because the ublk
    /// device was deleted with another tool); their metadata was saved by the
    /// supervisor on its way out.
    pub fn reap(&mut self, finished: &Vec<u32>)
        requires
            old(self).wf(),
        ensures
            final(self).wf(),
            final(self)@ == old(self)@.without_all(finished@),
    {
        let ghost before = self@;
        let n: usize = finished.len();
        let mut i: usize = 0;
        proof {
            assert(finished@.take(0) =~= Seq::empty());
        }
        while i < n
            invariant
                i <= n == finished@.len(),
                self.wf(),
                self@ == before.without_all(finished@.take(i as int)),
            decreases n - i,
        {
            let id: u32 = finished[i];
            let ghost now = self@;
            proof {
                lemma_without_wf(now, id);
                assert(finished@.take(i + 1).drop_last() =~= finished@.take(i as int));
                assert(finished@.take(i + 1).last() == id);
            }
            match self.devices.remove(&id) {
                Some(m) => {
                    self.states.remove(&m.ticket);
                    proof {
                        assert(self@.devices =~= now.devices.remove(id));
                        assert(self@.states =~= now.states.remove(m.ticket));
                        assert(self@ == now.without(id));
                    }
                },
                None => {
                    proof {
                        assert(self@.devices =~= now.devices);
                    }
                },
            }
            i = i + 1;
        }
        proof {
            assert(finished@.take(n as int) =~= finished@);
        }
    }

    /// Take a device out of the registry. Its era map stays until the
    /// supervisor retires it: IO goes on until the device is gone.
    pub fn del(&mut self, dev_id: u32) -> (res: Result<Detached, ManagerError>)
        requires
            old(self).wf(),
        ensures
            final(self).wf(),
            match res {
                Ok(gone) => {
                    &&& old(self)@.devices.contains_key(dev_id)
                    &&& gone.backing@ == old(self)@.devices[dev_id].backing
                    &&& gone.ticket == old(self)@.devices[dev_id].ticket
                    &&& final(self)@ == (Registry {
                        devices: old(self)@.devices.remove(dev_id),
                        ..old(self)@
                    })
                },
                Err(e) => {
                    &&& !old(self)@.devices.contains_key(dev_id)
                    &&& e matches ManagerError::NotManaged { dev_id: id } && id == dev_id
                    &&& final(self)@ == old(self)@
                },
            },
    {
        let ghost before = self@;
        match self.devices.remove(&dev_id) {
            Some(m) => {
                proof {
                    assert(self@.devices =~= before.devices.remove(dev_id));
                    assert(self@.states =~= before.states);
                    assert forall|a: u32| #[trigger]
                        self@.devices.contains_key(a) implies self@.states.contains_key(
                        self@.devices[a].ticket,
                    ) by {
                        assert(before.devices.contains_key(a));
                    }
                    assert forall|a: u32, b: u32|
                        #![trigger self@.devices[a], self@.devices[b]]
                        self@.devices.contains_key(a) && self@.devices.contains_key(b) && a
                            != b implies self@.devices[a].ticket != self@.devices[b].ticket by {
                        assert(before.devices[a].ticket != before.devices[b].ticket);
                    }
                }
                Ok(Detached { backing: m.backing, ticket: m.ticket })
            },
            None => {
                proof {
                    assert(self@.devices =~= before.devices);
                }
                Err(ManagerError::NotManaged { dev_id })
            },
        }
    }

    /// Whether a ticket belongs to an attached device.
    fn finds_ticket(&self, ticket: u64) -> (r: bool)
        ensures
            r == self@.is_attached(ticket),
    {
        let ids = self.ids();
        let n: usize = ids.len();
        let mut i: usize = 0;
        while i < n
            invariant
                i <= n == ids@.len(),
                forall|id: u32| ids@.contains(id) <==> self@.devices.contains_key(id),
                forall|k: int| 0 <= k < i ==> self@.devices[#[trigger] ids@[k]].ticket != ticket,
            decreases n - i,
        {
            proof {
                assert(ids@.contains(ids@[i as int]));
                assert(self@.devices.contains_key(ids@[i as int]));
            }
            if let Some(m) = self.devices.get(&ids[i]) {
                if m.ticket == ticket {
                    return true;
                }
            }
            i = i + 1;
        }
        proof {
            if self@.is_attached(ticket) {
                let id = choose|id: u32|
                    #[trigger] self@.devices.contains_key(id) && self@.devices[id].ticket == ticket;
                assert(ids@.contains(id));
                let k = choose|k: int| 0 <= k < ids@.len() && ids@[k] == id;
                assert(self@.devices[ids@[k]].ticket != ticket);
            }
        }
        false
    }

    /// A supervisor is done: no more writes can happen. Returns the final
    /// save, which is complete. The map goes unless the device is still
    /// registered.
    pub fn retire(&mut self, ticket: u64) -> (raw: Option<Vec<u8>>)
        requires
            old(self).wf(),
        ensures
            final(self).wf(),
            bytes_view(raw) == if old(self)@.states.contains_key(ticket) {
                Some(encode(old(self)@.states[ticket], true))
            } else {
                None
            },
            final(self)@ == if old(self)@.is_attached(ticket) {
                old(self)@
            } else {
                Registry { states: old(self)@.states.remove(ticket), ..old(self)@ }
            },
    {
        let ghost before = self@;
        let raw: Option<Vec<u8>> = match self.states.get(&ticket) {
            Some(state) => {
                proof {
                    assert(self@.states.contains_key(ticket));
                }
                Some(state.save(true))
            },
            None => None,
        };
        if !self.finds_ticket(ticket) {
            self.states.remove(&ticket);
            proof {
                assert(self@.states =~= before.states.remove(ticket));
                assert(self@.devices =~= before.devices);
                assert forall|a: u32| #[trigger]
                    self@.devices.contains_key(a) implies self@.states.contains_key(
                    self@.devices[a].ticket,
                ) by {
                    assert(before.devices.contains_key(a));
                }
            }
        }
        raw
    }

    /// One turn of a request to the device with the given ticket, driven by a
    /// single completion. `None` for a ticket that was retired.
    pub fn on_io(&mut self, ticket: u64, cmd: IoCmd, phase: IoPhase) -> (turn: Option<IoTurn>)
        requires
            old(self).wf(),
            old(self)@.states.contains_key(ticket) ==> can_turn(
                old(self)@.states[ticket],
                cmd,
                phase,
            ),
        ensures
            final(self).wf(),
            match turn {
                Some(t) => {
                    &&& old(self)@.states.contains_key(ticket)
                    &&& t == turn_of(cmd, phase)
                    &&& final(self)@ == (Registry {
                        states: old(self)@.states.insert(
                            ticket,
                            turned_map(old(self)@.states[ticket], cmd, phase),
                        ),
                        ..old(self)@
                    })
                },
                None => !old(self)@.states.contains_key(ticket) && final(self)@ == old(self)@,
            },
    {
        let ghost before = self@;
        match self.states.remove(&ticket) {
            Some(taken) => {
                let mut state = taken;
                let turn = handle_io_cmd(&mut state, cmd, phase);
                let ghost map = state@;
                self.states.insert(ticket, state);
                proof {
                    assert(self@.states =~= before.states.insert(ticket, map));
                    assert(self@.devices =~= before.devices);
                }
                Some(turn)
            },
            None => {
                proof {
                    assert(self@.states =~= before.states);
                    assert(self@.devices =~= before.devices);
                }
                None
            },
        }
    }

    /// The state of a device.
    pub fn status(&self, dev_id: u32) -> (res: Result<StatusReply, ManagerError>)
        requires
            self.wf(),
        ensures
            match res {
                Ok(reply) => self@.devices.contains_key(dev_id) && describes(self@, dev_id, reply),
                Err(e) => !self@.devices.contains_key(dev_id) && (e matches
                    ManagerError::NotManaged { dev_id: id } && id == dev_id),
            },
    {
        let m = match self.devices.get(&dev_id) {
            Some(m) => m,
            None => {
                return Err(ManagerError::NotManaged { dev_id });
            },
        };
        proof {
            assert(self@.devices.contains_key(dev_id));
            assert(self@.states.contains_key(m.ticket));
        }
        match self.states.get(&m.ticket) {
            Some(state) => Ok(
                StatusReply {
                    dev_id,
                    backing: m.backing.clone(),
                    dev_size: state.dev_size,
                    granularity: state.granularity,
                    generation: write_generation(state.generation),
                    current_era: state.current_era(),
                    nr_chunks: state.nr_chunks(),
                    written_chunks: state.written_chunks(),
                    meta_path: copy_text(&m.meta),
                },
            ),
            None => Err(ManagerError::NotManaged { dev_id }),
        }
    }

    /// The state of all devices, in the order of their ids.
    pub fn list(&self) -> (list: Vec<StatusReply>)
        requires
            self.wf(),
        ensures
            forall|i: int|
                0 <= i < list@.len() ==> self@.devices.contains_key((#[trigger] list@[i]).dev_id)
                    && describes(self@, list@[i].dev_id, list@[i]),
            forall|i: int, j: int|
                0 <= i < j < list@.len() ==> (#[trigger] list@[i]).dev_id < (
                #[trigger] list@[j]).dev_id,
            forall|id: u32| #[trigger]
                self@.devices.contains_key(id) ==> exists|i: int|
                    0 <= i < list@.len() && (#[trigger] list@[i]).dev_id == id,
    {
        let ids = self.ids();
        let n: usize = ids.len();
        let mut list: Vec<StatusReply> = Vec::new();
        let mut i: usize = 0;
        while i < n
            invariant
                i <= n == ids@.len(),
                self.wf(),
                forall|a: int, b: int| 0 <= a < b < ids@.len() ==> ids@[a] < ids@[b],
                forall|id: u32| ids@.contains(id) <==> self@.devices.contains_key(id),
                list@.len() == i,
                forall|k: int|
                    0 <= k < i ==> (#[trigger] list@[k]).dev_id == ids@[k] && describes(
                        self@,
                        ids@[k],
                        list@[k],
                    ),
            decreases n - i,
        {
            proof {
                assert(ids@.contains(ids@[i as int]));
            }
            match self.status(ids[i]) {
                Ok(reply) => {
                    list.push(reply);
                },
                Err(_) => {
                    proof {
                        assert(false);
                    }
                },
            }
            i = i + 1;
        }
        proof {
            assert forall|k: int| 0 <= k < list@.len() implies self@.devices.contains_key(
                (#[trigger] list@[k]).dev_id,
            ) by {
                assert(ids@.contains(ids@[k]));
            }
            assert forall|id: u32| #[trigger] self@.devices.contains_key(id) implies exists|k: int|
                0 <= k < list@.len() && (#[trigger] list@[k]).dev_id == id by {
                assert(ids@.contains(id));
                let k = choose|k: int| 0 <= k < ids@.len() && ids@[k] == id;
                assert(list@[k].dev_id == id);
            }
        }
        list
    }

    /// Close the current era of a device.
    pub fn checkpoint(&mut self, dev_id: u32) -> (res: Result<CheckpointReply, ManagerError>)
        requires
            old(self).wf(),
            old(self)@.devices.contains_key(dev_id) ==> old(self)@.map_of(dev_id).current_era
                < u32::MAX,
        ensures
            final(self).wf(),
            match res {
                Ok(reply) => {
                    &&& old(self)@.devices.contains_key(dev_id)
                    &&& tells_checkpoint(old(self)@, dev_id, reply)
                    &&& final(self)@ == old(self)@.with_map(
                        dev_id,
                        old(self)@.map_of(dev_id).checkpointed(),
                    )
                },
                Err(e) => {
                    &&& !old(self)@.devices.contains_key(dev_id)
                    &&& e matches ManagerError::NotManaged { dev_id: id } && id == dev_id
                    &&& final(self)@ == old(self)@
                },
            },
    {
        let ghost before = self@;
        let (ticket, backing, meta) = match self.devices.get(&dev_id) {
            Some(m) => (m.ticket, m.backing.clone(), copy_text(&m.meta)),
            None => {
                return Err(ManagerError::NotManaged { dev_id });
            },
        };
        proof {
            assert(before.devices.contains_key(dev_id));
            assert(before.states.contains_key(ticket));
        }
        match self.states.remove(&ticket) {
            Some(taken) => {
                let mut state = taken;
                let (closed_era, current_era) = state.checkpoint();
                let save: Option<(String, Vec<u8>)> = match meta {
                    Some(path) => Some((path, state.save(false))),
                    None => None,
                };
                let ghost map = state@;
                self.states.insert(ticket, state);
                proof {
                    assert(self@.states =~= before.states.insert(ticket, map));
                    assert(self@.devices =~= before.devices);
                }
                Ok(CheckpointReply { dev_id, backing, closed_era, current_era, save })
            },
            None => Err(ManagerError::NotManaged { dev_id }),
        }
    }

    /// What changed on a device since an era, for a consumer whose cursor
    /// belongs to the device's history.
    pub fn dump(&self, dev_id: u32, since: u32, generation: Option<String>) -> (res: Result<
        DumpReply,
        ManagerError,
    >)
        requires
            self.wf(),
        ensures
            match res {
                Ok(reply) => {
                    let map = self@.map_of(dev_id);
                    &&& self@.devices.contains_key(dev_id)
                    &&& accepts_cursor(map, since, opt_view(generation))
                    &&& reply.dev_id == dev_id
                    &&& reply.generation@ == generation_text(map.generation)
                    &&& reply.current_era == map.current_era
                    &&& reply.since == since
                    &&& reply.granularity == map.granularity
                    &&& is_diff(map, since, reply.ranges@)
                    &&& reply.dirty_bytes == total_len(reply.ranges@)
                },
                Err(ManagerError::NotManaged { dev_id: id }) => !self@.devices.contains_key(dev_id)
                    && id == dev_id,
                Err(ManagerError::OtherHistory { given, current }) => {
                    &&& self@.devices.contains_key(dev_id)
                    &&& opt_view(generation) == Some(given@)
                    &&& current@ == generation_text(self@.map_of(dev_id).generation)
                    &&& given@ != current@
                },
                Err(ManagerError::StaleCursor { since: s }) => {
                    let map = self@.map_of(dev_id);
                    &&& self@.devices.contains_key(dev_id)
                    &&& s == since
                    &&& since >= map.current_era
                    &&& generation matches Some(g) ==> g@ == generation_text(map.generation)
                },
                Err(_) => false,
            },
    {
        let m = match self.devices.get(&dev_id) {
            Some(m) => m,
            None => {
                return Err(ManagerError::NotManaged { dev_id });
            },
        };
        proof {
            assert(self@.devices.contains_key(dev_id));
            assert(self@.states.contains_key(m.ticket));
        }
        let state = match self.states.get(&m.ticket) {
            Some(state) => state,
            None => {
                return Err(ManagerError::NotManaged { dev_id });
            },
        };
        let current: String = write_generation(state.generation);
        if let Some(given) = generation {
            if !same(&given, &current) {
                return Err(ManagerError::OtherHistory { given, current });
            }
        }
        if since >= state.current_era() {
            return Err(ManagerError::StaleCursor { since });
        }
        let ranges = state.ranges_since(since);
        let dirty_bytes: u64 = sum_ranges(&ranges, state.dev_size);
        Ok(
            DumpReply {
                dev_id,
                generation: current,
                current_era: state.current_era(),
                since,
                granularity: state.granularity,
                dirty_bytes,
                ranges,
            },
        )
    }
}

/// The total length of ranges that are in order and end by `limit`.
fn sum_ranges(ranges: &Vec<DirtyRange>, limit: u64) -> (total: u64)
    requires
        forall|k: int| 0 <= k < ranges@.len() ==> (#[trigger] ranges@[k]).end() <= limit,
        forall|j: int, k: int|
            0 <= j < k < ranges@.len() ==> (#[trigger] ranges@[j]).end() < (
            #[trigger] ranges@[k]).offset,
    ensures
        total == total_len(ranges@),
{
    let n: usize = ranges.len();
    let mut total: u64 = 0;
    let mut i: usize = 0;
    proof {
        assert(ranges@.take(0) =~= Seq::empty());
    }
    while i < n
        invariant
            i <= n == ranges@.len(),
            forall|k: int| 0 <= k < ranges@.len() ==> (#[trigger] ranges@[k]).end() <= limit,
            forall|j: int, k: int|
                0 <= j < k < ranges@.len() ==> (#[trigger] ranges@[j]).end() < (
                #[trigger] ranges@[k]).offset,
            total == total_len(ranges@.take(i as int)),
            i == 0 ==> total == 0,
            i > 0 ==> total <= ranges@[i - 1].end(),
        decreases n - i,
    {
        proof {
            assert(ranges@.take(i + 1).drop_last() =~= ranges@.take(i as int));
            assert(ranges@[i as int].end() <= limit);
            if i > 0 {
                assert(ranges@[i - 1].end() < ranges@[i as int].offset);
            }
        }
        total = total + ranges[i].len;
        i = i + 1;
    }
    proof {
        assert(ranges@.take(n as int) =~= ranges@);
    }
    total
}

/// Every device of the registry closed its era, and nothing else happened.
pub open spec fn all_checkpointed(before: Registry, after: Registry) -> bool {
    &&& after.devices == before.devices
    &&& after.next_ticket == before.next_ticket
    &&& after.states.dom() == before.states.dom()
    &&& forall|id: u32| #[trigger]
        before.devices.contains_key(id) ==> after.map_of(id) == before.map_of(id).checkpointed()
    &&& forall|t: u64|
        #[trigger] before.states.contains_key(t) && !before.is_attached(t) ==> after.states[t]
            == before.states[t]
}

impl DeviceManager {
    /// Close the current era of every device, in the order of their ids.
    pub fn checkpoint_all(&mut self) -> (list: Vec<CheckpointReply>)
        requires
            old(self).wf(),
            forall|id: u32| #[trigger]
                old(self)@.devices.contains_key(id) ==> old(self)@.map_of(id).current_era
                    < u32::MAX,
        ensures
            final(self).wf(),
            all_checkpointed(old(self)@, final(self)@),
            forall|i: int|
                0 <= i < list@.len() ==> old(self)@.devices.contains_key(
                    (#[trigger] list@[i]).dev_id,
                ) && tells_checkpoint(old(self)@, list@[i].dev_id, list@[i]),
            forall|i: int, j: int|
                0 <= i < j < list@.len() ==> (#[trigger] list@[i]).dev_id < (
                #[trigger] list@[j]).dev_id,
            forall|id: u32| #[trigger]
                old(self)@.devices.contains_key(id) ==> exists|i: int|
                    0 <= i < list@.len() && (#[trigger] list@[i]).dev_id == id,
    {
        let ghost before = self@;
        let ids = self.ids();
        let n: usize = ids.len();
        let mut list: Vec<CheckpointReply> = Vec::new();
        let mut i: usize = 0;
        while i < n
            invariant
                i <= n == ids@.len(),
                self.wf(),
                before.wf(),
                forall|a: int, b: int| 0 <= a < b < ids@.len() ==> ids@[a] < ids@[b],
                forall|id: u32| ids@.contains(id) <==> before.devices.contains_key(id),
                forall|id: u32| #[trigger]
                    before.devices.contains_key(id) ==> before.map_of(id).current_era < u32::MAX,
                self@.devices == before.devices,
                self@.next_ticket == before.next_ticket,
                self@.states.dom() == before.states.dom(),
                forall|k: int|
                    0 <= k < i ==> self@.map_of(#[trigger] ids@[k]) == before.map_of(
                        ids@[k],
                    ).checkpointed(),
                forall|k: int|
                    i <= k < n ==> self@.map_of(#[trigger] ids@[k]) == before.map_of(ids@[k]),
                forall|t: u64|
                    #[trigger] before.states.contains_key(t) && !before.is_attached(t)
                        ==> self@.states[t] == before.states[t],
                list@.len() == i,
                forall|k: int|
                    0 <= k < i ==> (#[trigger] list@[k]).dev_id == ids@[k] && tells_checkpoint(
                        before,
                        ids@[k],
                        list@[k],
                    ),
            decreases n - i,
        {
            let id: u32 = ids[i];
            let ghost now = self@;
            proof {
                assert(ids@.contains(id));
                assert(before.devices.contains_key(id));
                assert(now.map_of(ids@[i as int]) == before.map_of(id));
            }
            match self.checkpoint(id) {
                Ok(reply) => {
                    list.push(reply);
                    proof {
                        let ticket = now.devices[id].ticket;
                        assert(now.states.contains_key(ticket));
                        assert(self@.states.dom() =~= before.states.dom());
                        assert forall|k: int| 0 <= k < n && k != i implies self@.map_of(
                            #[trigger] ids@[k],
                        ) == now.map_of(ids@[k]) by {
                            assert(ids@.contains(ids@[k]));
                            assert(ids@[k] != id);
                            assert(now.devices.contains_key(ids@[k]));
                            assert(now.devices[ids@[k]].ticket != now.devices[id].ticket);
                        }
                        assert forall|t: u64|
                            #[trigger] before.states.contains_key(t) && !before.is_attached(
                                t,
                            ) implies self@.states[t] == before.states[t] by {
                            assert(before.devices.contains_key(id));
                            assert(t != ticket);
                        }
                    }
                },
                Err(_) => {
                    proof {
                        assert(false);
                    }
                },
            }
            i = i + 1;
        }
        proof {
            assert forall|id: u32| #[trigger] before.devices.contains_key(id) implies self@.map_of(
                id,
            ) == before.map_of(id).checkpointed() && exists|k: int|
                0 <= k < list@.len() && (#[trigger] list@[k]).dev_id == id by {
                assert(ids@.contains(id));
                let k = choose|k: int| 0 <= k < ids@.len() && ids@[k] == id;
                assert(list@[k].dev_id == id);
                assert(self@.map_of(ids@[k]) == before.map_of(ids@[k]).checkpointed());
            }
            assert forall|k: int| 0 <= k < list@.len() implies before.devices.contains_key(
                (#[trigger] list@[k]).dev_id,
            ) by {
                assert(ids@.contains(ids@[k]));
            }
        }
        list
    }
}

/// How a request addresses a device: by id or by backing path.
pub struct Target {
    pub dev_id: Option<u32>,
    pub backing: Option<String>,
}

/// Where a device's backing path leads, if anywhere.
pub open spec fn canonical(canons: Seq<(u32, Option<String>)>, id: u32) -> Option<Seq<char>>
    decreases canons.len(),
{
    if canons.len() == 0 {
        None
    } else if canons[0].0 == id {
        opt_view(canons[0].1)
    } else {
        canonical(canons.skip(1), id)
    }
}

/// A device answers to a backing path: it is its own, or leads to the same
/// place.
pub open spec fn answers_to(
    reg: Registry,
    id: u32,
    backing: Seq<char>,
    canon: Option<Seq<char>>,
    canons: Seq<(u32, Option<String>)>,
) -> bool {
    &&& reg.devices.contains_key(id)
    &&& reg.devices[id].backing == backing || (canon is Some && canonical(canons, id) == canon)
}

/// Where a device's backing path leads.
fn find_canonical(canons: &Vec<(u32, Option<String>)>, id: u32) -> (path: Option<String>)
    ensures
        opt_view(path) == canonical(canons@, id),
{
    let n: usize = canons.len();
    let mut i: usize = 0;
    proof {
        assert(canons@.skip(0) =~= canons@);
    }
    while i < n
        invariant
            i <= n == canons@.len(),
            canonical(canons@, id) == canonical(canons@.skip(i as int), id),
        decreases n - i,
    {
        proof {
            assert(canons@.skip(i as int).skip(1) =~= canons@.skip(i + 1));
        }
        if canons[i].0 == id {
            return copy_text(&canons[i].1);
        }
        i = i + 1;
    }
    None
}

impl DeviceManager {
    /// Resolve a request target to a device id: an id passes through, a
    /// backing path is looked up among tracked devices. `canon` is where the
    /// path leads and `canons` where the devices' paths do, so that symlinks
    /// and relative paths match. Of several devices the one with the smallest
    /// id is taken.
    pub fn resolve(
        &self,
        target: &Target,
        canon: Option<String>,
        canons: &Vec<(u32, Option<String>)>,
    ) -> (res: Result<u32, ManagerError>)
        requires
            self.wf(),
        ensures
            match (target.dev_id, target.backing) {
                (Some(id), None) => res matches Ok(r) && r == id,
                (Some(_), Some(_)) => res matches Err(ManagerError::BothGiven),
                (None, None) => res matches Err(ManagerError::NoneGiven),
                (None, Some(b)) => match res {
                    Ok(id) => {
                        &&& answers_to(self@, id, b@, opt_view(canon), canons@)
                        &&& forall|other: u32|
                            other < id ==> !answers_to(
                                self@,
                                other,
                                b@,
                                opt_view(canon),
                                canons@,
                            )
                    },
                    Err(e) => {
                        &&& e matches ManagerError::NoSuchBacking { backing } && backing@ == b@
                        &&& forall|id: u32|
                            !answers_to(self@, id, b@, opt_view(canon), canons@)
                    },
                },
            },
    {
        match (target.dev_id, &target.backing) {
            (Some(id), None) => Ok(id),
            (Some(_), Some(_)) => Err(ManagerError::BothGiven),
            (None, None) => Err(ManagerError::NoneGiven),
            (None, Some(b)) => {
                let ids = self.ids();
                let n: usize = ids.len();
                let mut i: usize = 0;
                while i < n
                    invariant
                        i <= n == ids@.len(),
                        target.dev_id is None,
                        target.backing == Some(*b),
                        forall|x: int, y: int| 0 <= x < y < ids@.len() ==> ids@[x] < ids@[y],
                        forall|id: u32| ids@.contains(id) <==> self@.devices.contains_key(id),
                        forall|k: int|
                            0 <= k < i ==> !answers_to(
                                self@,
                                #[trigger] ids@[k],
                                b@,
                                opt_view(canon),
                                canons@,
                            ),
                    decreases n - i,
                {
                    let id: u32 = ids[i];
                    proof {
                        assert(ids@.contains(id));
                        assert(self@.devices.contains_key(id));
                    }
                    if let Some(m) = self.devices.get(&id) {
                        let own: bool = same(&m.backing, b);
                        let there: bool = match (&canon, find_canonical(canons, id)) {
                            (Some(c), Some(d)) => same(c, &d),
                            _ => false,
                        };
                        if own || there {
                            proof {
                                assert forall|other: u32| other < id implies !answers_to(
                                    self@,
                                    other,
                                    b@,
                                    opt_view(canon),
                                    canons@,
                                ) by {
                                    if self@.devices.contains_key(other) {
                                        assert(ids@.contains(other));
                                        let k = choose|k: int|
                                            0 <= k < ids@.len() && ids@[k] == other;
                                        assert(!answers_to(
                                            self@,
                                            ids@[k],
                                            b@,
                                            opt_view(canon),
                                            canons@,
                                        ));
                                    }
                                }
                            }
                            return Ok(id);
                        }
                    }
                    i = i + 1;
                }
                proof {
                    assert forall|id: u32| !answers_to(
                        self@,
                        id,
                        b@,
                        opt_view(canon),
                        canons@,
                    ) by {
                        if self@.devices.contains_key(id) {
                            assert(ids@.contains(id));
                            let k = choose|k: int| 0 <= k < ids@.len() && ids@[k] == id;
                            assert(!answers_to(self@, ids@[k], b@, opt_view(canon), canons@));
                        }
                    }
                }
                Err(ManagerError::NoSuchBacking { backing: b.clone() })
            },
        }
    }
}

/// The words for why a request was refused.
pub open spec fn refusal(e: ManagerError) -> Seq<char> {
    match e {
        ManagerError::NotManaged { dev_id } => "device "@ + decimal(dev_id as nat)
            + " is not managed by this daemon"@,
        ManagerError::BadSize { size } => "backing size "@ + decimal(size as nat)
            + " must be a non-zero multiple of 512"@,
        ManagerError::AlreadyAttached { backing } => "'"@ + backing@ + "' is already attached"@,
        ManagerError::Load { path, why } => load_complaint(why, path@),
        ManagerError::BadGranularity { granularity } => granularity_complaint(granularity),
        ManagerError::NotStarted { backing, cause } => "start device for '"@ + backing@ + "': "@
            + cause@,
        ManagerError::Died { backing } => "supervisor for '"@ + backing@
            + "' died during startup (panicked)"@,
        ManagerError::TimedOut { backing } => "device for '"@ + backing@
            + "' did not come up within 15s"@,
        ManagerError::StaleCursor { since } => "since "@ + decimal(since as nat)
            + " is not in this device's era history"@,
        ManagerError::OtherHistory { given, current } => "generation "@ + given@
            + " is not this device's history ("@ + current@ + ")"@,
        ManagerError::BothGiven => "specify either dev_id or backing, not both"@,
        ManagerError::NoneGiven => "request needs dev_id or backing"@,
        ManagerError::NoSuchBacking { backing } => "no tracked device with backing '"@ + backing@
            + "'"@,
    }
}

impl ManagerError {
    pub fn message(&self) -> (t: String)
        ensures
            t@ == refusal(*self),
    {
        match self {
            ManagerError::NotManaged { dev_id } => {
                let mut t: String = "device ".to_owned();
                push_decimal(&mut t, *dev_id as u64);
                t.append(" is not managed by this daemon");
                t
            },
            ManagerError::BadSize { size } => {
                let mut t: String = "backing size ".to_owned();
                push_decimal(&mut t, *size);
                t.append(" must be a non-zero multiple of 512");
                t
            },
            ManagerError::AlreadyAttached { backing } => {
                let mut t: String = "'".to_owned();
                t.append(backing);
                t.append("' is already attached");
                t
            },
            ManagerError::Load { path, why } => why.message(path),
            ManagerError::BadGranularity { granularity } => complain_granularity(*granularity),
            ManagerError::NotStarted { backing, cause } => {
                let mut t: String = "start device for '".to_owned();
                t.append(backing);
                t.append("': ");
                t.append(cause);
                t
            },
            ManagerError::Died { backing } => {
                let mut t: String = "supervisor for '".to_owned();
                t.append(backing);
                t.append("' died during startup (panicked)");
                t
            },
            ManagerError::TimedOut { backing } => {
                let mut t: String = "device for '".to_owned();
                t.append(backing);
                t.append("' did not come up within 15s");
                t
            },
            ManagerError::StaleCursor { since } => {
                let mut t: String = "since ".to_owned();
                push_decimal(&mut t, *since as u64);
                t.append(" is not in this device's era history");
                t
            },
            ManagerError::OtherHistory { given, current } => {
                let mut t: String = "generation ".to_owned();
                t.append(given);
                t.append(" is not this device's history (");
                t.append(current);
                t.append(")");
                t
            },
            ManagerError::BothGiven => "specify either dev_id or backing, not both".to_owned(),
            ManagerError::NoneGiven => "request needs dev_id or backing".to_owned(),
            ManagerError::NoSuchBacking { backing } => {
                let mut t: String = "no tracked device with backing '".to_owned();
                t.append(backing);
                t.append("'");
                t
            },
        }
    }
}

impl DeviceManager {
    /// Whether the eras of all devices can go on.
    pub fn can_checkpoint(&self) -> (yes: bool)
        requires
            self.wf(),
        ensures
            yes <==> forall|id: u32| #[trigger]
                self@.devices.contains_key(id) ==> self@.map_of(id).current_era < u32::MAX,
    {
        let list = self.list();
        let n: usize = list.len();
        let mut i: usize = 0;
        while i < n
            invariant
                i <= n == list@.len(),
                forall|k: int|
                    0 <= k < list@.len() ==> self@.devices.contains_key(
                        (#[trigger] list@[k]).dev_id,
                    ) && describes(self@, list@[k].dev_id, list@[k]),
                forall|k: int| 0 <= k < i ==> (#[trigger] list@[k]).current_era < u32::MAX,
            decreases n - i,
        {
            if list[i].current_era == u32::MAX {
                proof {
                    assert(self@.devices.contains_key(list@[i as int].dev_id));
                }
                return false;
            }
            i = i + 1;
        }
        proof {
            assert forall|id: u32| #[trigger] self@.devices.contains_key(id) implies self@.map_of(
                id,
            ).current_era < u32::MAX by {
                let k = choose|k: int| 0 <= k < list@.len() && (#[trigger] list@[k]).dev_id == id;
                assert(list@[k].current_era < u32::MAX);
            }
        }
        true
    }
}

/// A manager stands for the devices and maps that it holds.
pub proof fn a_manager_is_its_registry(m: DeviceManager, id: u32, ticket: u64)
    ensures
        m@.next_ticket == m.next_ticket,
        m@.devices.contains_key(id) <==> m.devices@.contains_key(id),
        m.devices@.contains_key(id) ==> {
            &&& m@.devices[id].backing == m.devices@[id].backing@
            &&& m@.devices[id].meta == opt_view(m.devices@[id].meta)
            &&& m@.devices[id].ticket == m.devices@[id].ticket
        },
        m@.states.contains_key(ticket) <==> m.states@.contains_key(ticket),
        m.states@.contains_key(ticket) ==> m@.states[ticket] == m.states@[ticket]@,
        m@.map_of(id) == m@.states[m@.devices[id].ticket],
{
}

/// Bytes that may be missing are there exactly when they are given.
pub proof fn optional_bytes_are_kept(saved: Option<Vec<u8>>)
    ensures
        bytes_view(saved) is Some <==> saved is Some,
        saved matches Some(raw) ==> bytes_view(saved) == Some(raw@),
{
}

} // verus!
