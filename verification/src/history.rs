//! What a consumer's cursor means across detach, crash and loss of metadata.

use vstd::prelude::*;

use crate::era::{is_diff, DirtyRange, EraMap};
use crate::manager::{accepts_cursor, generation_text, starting_map, Device, Registry};
use crate::meta::{encode, LoadError};
use crate::text::{hex_char, hex_digits};

verus! {

/// A clean detach and re-attach goes on with the same history: nothing is
/// lost, and nothing is flagged.
pub proof fn clean_reattach_continues(map: EraMap, generation: u64)
    requires
        map.wf(),
    ensures
        starting_map(
            Some(encode(map, true)),
            map.dev_size,
            map.granularity,
            generation,
        ) == Ok::<(EraMap, bool), LoadError>((map, false)),
{
    crate::meta::load_restores_save(map, true);
}

/// After a crash the last save is marked unclean. The next attach flags it,
/// keeps the history's identity and era, and counts every chunk as changed.
pub proof fn crash_recovery_is_flagged(map: EraMap, generation: u64)
    requires
        map.wf(),
    ensures
        starting_map(
            Some(encode(map, false)),
            map.dev_size,
            map.granularity,
            generation,
        ) == Ok::<(EraMap, bool), LoadError>((map.all_dirty(), true)),
        map.all_dirty().generation == map.generation,
        map.all_dirty().current_era == map.current_era,
{
    crate::meta::load_restores_save(map, false);
}

/// After such a recovery, every cursor that is accepted gets the whole device.
pub proof fn recovery_reports_whole_device(
    map: EraMap,
    since: u32,
    generation: Option<Seq<char>>,
    ranges: Seq<DirtyRange>,
)
    requires
        map.wf(),
        map.dev_size > 0,
        accepts_cursor(map.all_dirty(), since, generation),
        is_diff(map.all_dirty(), since, ranges),
    ensures
        ranges == seq![DirtyRange { offset: 0, len: map.dev_size }],
{
    crate::cbt::all_dirty_reports_whole_device(map, since, ranges);
}

/// Without metadata a fresh history begins, at era 1.
pub proof fn lost_metadata_starts_fresh(dev_size: u64, granularity: u64, generation: u64)
    requires
        crate::era::valid_granularity(granularity),
    ensures
        starting_map(None, dev_size, granularity, generation) == Ok::<
            (EraMap, bool),
            LoadError,
        >((EraMap::fresh(dev_size, granularity, generation), false)),
{
}

/// A cursor from another history is rejected, whatever era it names: as
/// (generation, era) it cannot be mistaken.
pub proof fn other_history_is_rejected(map: EraMap, since: u32, generation: u64)
    requires
        generation != map.generation,
    ensures
        !accepts_cursor(map, since, Some(generation_text(generation))),
{
    if generation_text(generation) == generation_text(map.generation) {
        assert(hex_span(16) == 0x1_0000_0000_0000_0000) by {
            reveal_with_fuel(hex_span, 17);
        }
        lemma_hex_injective(generation as nat, map.generation as nat, 16);
    }
}

/// A bare era that was never closed in this history is rejected: in a fresh
/// history that is every era but 0.
pub proof fn unknown_era_is_rejected(map: EraMap, since: u32, generation: Option<Seq<char>>)
    requires
        since >= map.current_era,
    ensures
        !accepts_cursor(map, since, generation),
{
}

/// The era that a checkpoint closes is a valid cursor from then on, as long as
/// the history goes on.
pub proof fn closed_era_is_a_cursor(map: EraMap, later: EraMap)
    requires
        map.current_era < u32::MAX,
        crate::stamp::follows(map.checkpointed(), later),
    ensures
        accepts_cursor(later, map.current_era, Some(generation_text(map.generation))),
{
}

/// Devices are independent: what happens to the map of one leaves those of the
/// others as they are.
pub proof fn devices_are_independent(reg: Registry, id: u32, other: u32, map: EraMap)
    requires
        reg.wf(),
        reg.devices.contains_key(id),
        reg.devices.contains_key(other),
        id != other,
    ensures
        reg.with_map(id, map).map_of(other) == reg.map_of(other),
        reg.without(id).map_of(other) == reg.map_of(other),
{
    assert(reg.devices[id].ticket != reg.devices[other].ticket);
}

/// Attaching a backing that is not attached yet leaves no backing attached
/// twice.
pub proof fn backings_stay_distinct(reg: Registry, id: u32, device: Device)
    requires
        distinct_backings(reg),
        !reg.has_backing(device.backing),
    ensures
        distinct_backings(Registry { devices: reg.devices.insert(id, device), ..reg }),
{
    let after = Registry { devices: reg.devices.insert(id, device), ..reg };
    assert forall|a: u32, b: u32|
        #![trigger after.devices[a], after.devices[b]]
        after.devices.contains_key(a) && after.devices.contains_key(b) && a
            != b implies after.devices[a].backing != after.devices[b].backing by {
        if a == id {
            assert(reg.devices.contains_key(b));
        } else if b == id {
            assert(reg.devices.contains_key(a));
        } else {
            assert(reg.devices[a].backing != reg.devices[b].backing);
        }
    }
}

/// No backing is attached twice.
pub open spec fn distinct_backings(reg: Registry) -> bool {
    forall|a: u32, b: u32|
        #![trigger reg.devices[a], reg.devices[b]]
        reg.devices.contains_key(a) && reg.devices.contains_key(b) && a != b
            ==> reg.devices[a].backing != reg.devices[b].backing
}

/// How many values `width` hexadecimal digits can hold.
spec fn hex_span(width: nat) -> nat
    decreases width,
{
    if width == 0 {
        1
    } else {
        16 * hex_span((width - 1) as nat)
    }
}

proof fn lemma_hex_injective(a: nat, b: nat, width: nat)
    requires
        hex_digits(a, width) == hex_digits(b, width),
        a < hex_span(width),
        b < hex_span(width),
    ensures
        a == b,
    decreases width,
{
    if width > 0 {
        let x = hex_digits(a, width);
        let y = hex_digits(b, width);
        assert(x.last() == y.last());
        assert(x.drop_last() =~= hex_digits(a / 16, (width - 1) as nat));
        assert(y.drop_last() =~= hex_digits(b / 16, (width - 1) as nat));
        lemma_hex_injective(a / 16, b / 16, (width - 1) as nat);
        assert(hex_char(a % 16) == hex_char(b % 16));
    }
}

} // verus!
