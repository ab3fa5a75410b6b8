//! Stamping a write into an era map that others change meanwhile.
//!
//! A write is stamped by a sequence of single accesses to the map: read the
//! current era, raise one chunk after the other to it, read the current era
//! again, and start over if a checkpoint moved it. Between any two accesses
//! other writers may stamp and checkpoints may close eras. What a finished
//! stamp leaves behind holds under every such interleaving.

use vstd::prelude::*;

use crate::era::{DirtyRange, EraMap, EraState};

verus! {

/// `b` can follow `a` in a history: eras only grow.
pub open spec fn follows(a: EraMap, b: EraMap) -> bool {
    &&& a.granularity == b.granularity
    &&& a.dev_size == b.dev_size
    &&& a.generation == b.generation
    &&& a.eras.len() == b.eras.len()
    &&& a.current_era <= b.current_era
    &&& forall|i: int| 0 <= i < a.eras.len() ==> (#[trigger] a.eras[i]) <= b.eras[i]
}

/// The access that a stamping writer makes next.
#[derive(Clone, Copy, Debug, PartialEq, Eq, Structural)]
pub enum StampPhase {
    /// read the current era
    Load,
    /// raise chunk `next` to `era`
    Raise { era: u32, next: usize },
    /// read the current era again and compare it with `era`
    Confirm { era: u32 },
    /// nothing: the chunks carry at least `era`
    Done { era: u32 },
}

/// A write on its way into the map: chunks `first..=last`.
#[derive(Clone, Copy, Debug)]
pub struct Stamp {
    pub first: usize,
    pub last: usize,
    pub phase: StampPhase,
}

impl Stamp {
    pub open spec fn spans(self, map: EraMap) -> bool {
        self.first <= self.last < map.eras.len()
    }

    /// The stamp is for the chunks that `[offset, offset + len)` touches.
    pub open spec fn is_for(self, map: EraMap, offset: u64, len: u64) -> bool {
        &&& self.spans(map)
        &&& forall|i: int|
            0 <= i < map.eras.len() ==> (self.first <= i <= self.last <==> #[trigger] map.touched(
                offset,
                len,
                i,
            ))
    }

    /// The chunks `first..upto` carry at least `era`.
    pub open spec fn raised(self, map: EraMap, era: u32, upto: int) -> bool {
        forall|i: int| self.first <= i < upto ==> (#[trigger] map.eras[i]) >= era
    }

    /// What a stamp in flight may rely on.
    pub open spec fn inv(self, map: EraMap) -> bool {
        &&& self.spans(map)
        &&& match self.phase {
            StampPhase::Load => true,
            StampPhase::Raise { era, next } => {
                &&& era <= map.current_era
                &&& self.first <= next <= self.last
                &&& self.raised(map, era, next as int)
            },
            StampPhase::Confirm { era } => {
                &&& era <= map.current_era
                &&& self.raised(map, era, self.last + 1)
            },
            StampPhase::Done { era } => {
                &&& era <= map.current_era
                &&& self.raised(map, era, self.last + 1)
            },
        }
    }

    /// The next phase after the access that this phase makes to `map`.
    pub open spec fn next_phase(self, map: EraMap) -> StampPhase {
        match self.phase {
            StampPhase::Load => StampPhase::Raise { era: map.current_era, next: self.first },
            StampPhase::Raise { era, next } => if next < self.last {
                StampPhase::Raise { era, next: (next + 1) as usize }
            } else {
                StampPhase::Confirm { era }
            },
            StampPhase::Confirm { era } => if era == map.current_era {
                StampPhase::Done { era }
            } else {
                StampPhase::Load
            },
            StampPhase::Done { era } => StampPhase::Done { era },
        }
    }

    /// The map after the access that this phase makes to it.
    pub open spec fn next_map(self, map: EraMap) -> EraMap {
        match self.phase {
            StampPhase::Raise { era, next } => EraMap {
                eras: map.eras.update(
                    next as int,
                    crate::era::max_era(map.eras[next as int], era),
                ),
                ..map
            },
            _ => map,
        }
    }

    /// Start stamping a write to `[offset, offset + len)`. Nothing is to be
    /// stamped for an empty write or one beyond the device end.
    pub fn begin(map: &EraState, offset: u64, len: u64) -> (res: Option<Stamp>)
        requires
            map.wf(),
            len == 0 || map@.chunk_of(offset as int) >= map@.eras.len() || offset + len <= u64::MAX,
        ensures
            res is Some <==> len > 0 && map@.chunk_of(offset as int) < map@.eras.len(),
            res matches Some(stamp) ==> {
                &&& stamp.phase == StampPhase::Load
                &&& stamp.is_for(map@, offset, len)
                &&& stamp.inv(map@)
            },
    {
        if len == 0 {
            return None;
        }
        let n: usize = map.eras.len();
        let first: u64 = offset / map.granularity;
        if first >= n as u64 {
            return None;
        }
        let end: u64 = (offset + len - 1) / map.granularity;
        let last: u64 = if end < n as u64 {
            end
        } else {
            n as u64 - 1
        };
        proof {
            let g = map.granularity as int;
            assert(offset as int / g <= (offset + len - 1) / g) by (nonlinear_arith)
                requires
                    g > 0,
                    len > 0,
            ;
        }
        Some(Stamp { first: first as usize, last: last as usize, phase: StampPhase::Load })
    }

    /// Make one access to the map. Returns whether the stamp is finished.
    pub fn step(&mut self, map: &mut EraState) -> (done: bool)
        requires
            old(map).wf(),
            old(self).inv(old(map)@),
        ensures
            final(map).wf(),
            final(map)@ == old(self).next_map(old(map)@),
            final(self).first == old(self).first,
            final(self).last == old(self).last,
            final(self).phase == old(self).next_phase(old(map)@),
            final(self).inv(final(map)@),
            follows(old(map)@, final(map)@),
            done <==> final(self).phase is Done,
            done && !(old(self).phase is Done) ==> final(self).raised(
                final(map)@,
                final(map)@.current_era,
                final(self).last + 1,
            ),
    {
        match self.phase {
            StampPhase::Load => {
                self.phase = StampPhase::Raise { era: map.current_era, next: self.first };
                false
            },
            StampPhase::Raise { era, next } => {
                let ghost before = map@;
                if map.eras[next] < era {
                    map.eras.set(next, era);
                }
                proof {
                    assert(map@ =~= self.next_map(before));
                }
                if next < self.last {
                    self.phase = StampPhase::Raise { era, next: next + 1 };
                } else {
                    self.phase = StampPhase::Confirm { era };
                }
                false
            },
            StampPhase::Confirm { era } => {
                if map.current_era == era {
                    self.phase = StampPhase::Done { era };
                    true
                } else {
                    self.phase = StampPhase::Load;
                    false
                }
            },
            StampPhase::Done { era: _ } => true,
        }
    }
}

impl EraState {
    /// Record that `[offset, offset + len)` was written, stamping the chunks
    /// with the era current at completion time. An era is never lowered.
    pub fn mark_write(&mut self, offset: u64, len: u64)
        requires
            old(self).wf(),
            len == 0 || old(self)@.chunk_of(offset as int) >= old(self)@.eras.len() || offset + len
                <= u64::MAX,
        ensures
            final(self).wf(),
            final(self)@ == old(self)@.marked(offset, len),
    {
        let ghost before = self@;
        match Stamp::begin(self, offset, len) {
            None => {
                proof {
                    assert(self@.eras =~= before.marked(offset, len).eras);
                }
            },
            Some(begun) => {
                let mut stamp = begun;
                let mut done: bool = false;
                while !done
                    invariant
                        self.wf(),
                        self@ == (EraMap { eras: self.eras@, ..before }),
                        self.eras@.len() == before.eras.len(),
                        stamp.first == begun.first,
                        stamp.last == begun.last,
                        stamp.inv(self@),
                        begun.spans(before),
                        done <==> stamp.phase is Done,
                        match stamp.phase {
                            StampPhase::Load => true,
                            StampPhase::Raise { era, next } => era == before.current_era,
                            StampPhase::Confirm { era } => era == before.current_era,
                            StampPhase::Done { era } => era == before.current_era,
                        },
                        forall|i: int|
                            0 <= i < before.eras.len() ==> (#[trigger] self.eras@[i])
                                == before.eras[i] || stamp.first <= i <= stamp.last
                                && self.eras@[i] == crate::era::max_era(
                                before.eras[i],
                                before.current_era,
                            ),
                    decreases
                            match stamp.phase {
                                StampPhase::Load => stamp.last - stamp.first + 4,
                                StampPhase::Raise { era, next } => stamp.last - next + 3,
                                StampPhase::Confirm { era } => 1,
                                StampPhase::Done { era } => 0,
                            },
                {
                    done = stamp.step(self);
                }
                proof {
                    let want = before.marked(offset, len).eras;
                    assert forall|i: int| 0 <= i < before.eras.len() implies self.eras@[i]
                        == want[i] by {
                        assert(before.touched(offset, len, i) <==> begun.first <= i <= begun.last);
                        if begun.first <= i <= begun.last {
                            assert(self@.eras[i] >= before.current_era);
                        }
                    }
                    assert(self@.eras =~= want);
                }
            },
        }
    }
}

/// A stamp in flight is not disturbed by what others do to the map.
pub proof fn stamp_survives_interference(stamp: Stamp, a: EraMap, b: EraMap)
    requires
        stamp.inv(a),
        follows(a, b),
    ensures
        stamp.inv(b),
{
    assert forall|era: u32, upto: int|
        stamp.raised(a, era, upto) && upto <= stamp.last + 1 implies #[trigger] stamp.raised(
        b,
        era,
        upto,
    ) by {
        assert forall|i: int| stamp.first <= i < upto implies (#[trigger] b.eras[i]) >= era by {
            assert(a.eras[i] <= b.eras[i]);
        }
    }
    match stamp.phase {
        StampPhase::Raise { era, next } => {
            assert(stamp.raised(b, era, next as int));
        },
        StampPhase::Confirm { era } => {
            assert(stamp.raised(b, era, stamp.last + 1));
        },
        StampPhase::Done { era } => {
            assert(stamp.raised(b, era, stamp.last + 1));
        },
        _ => {},
    }
}

/// Every operation on a map only moves its history forward.
pub proof fn operations_move_forward(map: EraMap, offset: u64, len: u64)
    ensures
        follows(map, map.marked(offset, len)),
        follows(map, map.all_dirty()),
        map.current_era < u32::MAX ==> follows(map, map.checkpointed()),
{
}

/// Moving forward composes.
pub proof fn follows_is_transitive(a: EraMap, b: EraMap, c: EraMap)
    requires
        follows(a, b),
        follows(b, c),
    ensures
        follows(a, c),
{
    assert forall|i: int| 0 <= i < a.eras.len() implies (#[trigger] a.eras[i]) <= c.eras[i] by {
        assert(a.eras[i] <= b.eras[i]);
        assert(b.eras[i] <= c.eras[i]);
    }
}

/// A write that races checkpoints is never lost. Let a checkpoint close era
/// `closed`, then let the stamp of a write finish, then let a diff be taken,
/// with anything in between: a diff since `closed` reports every byte that the
/// write touched.
pub proof fn no_write_is_lost(
    closed: u32,
    after_checkpoint: EraMap,
    at_return: EraMap,
    at_dump: EraMap,
    stamp: Stamp,
    offset: u64,
    len: u64,
    ranges: Seq<DirtyRange>,
    byte: int,
)
    requires
        after_checkpoint.wf(),
        closed < after_checkpoint.current_era,
        follows(after_checkpoint, at_return),
        stamp.is_for(at_return, offset, len),
        stamp.raised(at_return, at_return.current_era, stamp.last + 1),
        follows(at_return, at_dump),
        crate::era::is_diff(at_dump, closed, ranges),
        offset <= byte < offset + len,
        byte < at_dump.dev_size,
    ensures
        crate::era::covered(ranges, byte),
{
    let g = at_return.granularity as int;
    let c = at_return.chunk_of(byte);
    crate::era::lemma_chunk_exists(at_return.dev_size, at_return.granularity, byte);
    assert(offset as int / g <= byte / g <= (offset + len - 1) / g) by (nonlinear_arith)
        requires
            g > 0,
            offset <= byte <= offset + len - 1,
    ;
    assert(at_return.touched(offset, len, c));
    assert(at_return.eras[c] >= at_return.current_era);
    assert(at_dump.eras[c] >= at_return.eras[c]);
    assert(at_dump.changed(closed, byte));
    assert(crate::era::covered(ranges, byte));
}

/// A stamp is done only once every chunk of it carries the era that is current
/// at that very access: a checkpoint that slipped in makes it start over.
pub proof fn a_stamp_is_done_when_confirmed(stamp: Stamp, map: EraMap)
    requires
        stamp.inv(map),
        !(stamp.phase is Done),
    ensures
        stamp.next_phase(map) is Done ==> {
            &&& stamp.phase is Confirm
            &&& stamp.next_map(map) == map
            &&& forall|i: int|
                stamp.first <= i <= stamp.last ==> (#[trigger] map.eras[i]) >= map.current_era
        },
        stamp.phase is Confirm && !(stamp.next_phase(map) is Done) ==> stamp.next_phase(map)
            == StampPhase::Load,
{
    if let StampPhase::Confirm { era } = stamp.phase {
        if stamp.next_phase(map) is Done {
            assert forall|i: int| stamp.first <= i <= stamp.last implies (#[trigger] map.eras[i])
                >= map.current_era by {
                assert(stamp.raised(map, era, stamp.last + 1));
            }
        }
    }
}

/// One access of a stamp raises at most one chunk, one of its own, never
/// lowers it, and leaves everything else as it is.
pub proof fn an_access_raises_one_chunk(stamp: Stamp, map: EraMap, i: int)
    requires
        stamp.inv(map),
        0 <= i < map.eras.len(),
    ensures
        ({
            let after = stamp.next_map(map);
            &&& after == (EraMap { eras: after.eras, ..map })
            &&& after.eras.len() == map.eras.len()
            &&& after.eras[i] >= map.eras[i]
            &&& after.eras[i] != map.eras[i] ==> {
                &&& stamp.first <= i <= stamp.last
                &&& stamp.phase matches StampPhase::Raise { era, next } && next == i
                    && after.eras[i] == era
            }
            &&& stamp.phase matches StampPhase::Raise { era, next } ==> after.eras[next as int]
                >= era
            &&& after.current_era == map.current_era
        }),
{
}

/// A stamp goes through its chunks one after the other, from the first to the
/// last, and keeps the era that it read.
pub proof fn a_stamp_visits_every_chunk(stamp: Stamp, map: EraMap)
    requires
        stamp.inv(map),
    ensures
        stamp.phase is Load ==> stamp.next_phase(map) == (StampPhase::Raise {
            era: map.current_era,
            next: stamp.first,
        }),
        stamp.phase matches StampPhase::Raise { era, next } ==> if next == stamp.last {
            stamp.next_phase(map) == (StampPhase::Confirm { era })
        } else {
            stamp.next_phase(map) == (StampPhase::Raise { era, next: (next + 1) as usize })
        },
        (Stamp { phase: stamp.next_phase(map), ..stamp }).inv(stamp.next_map(map)),
{
    let after = stamp.next_map(map);
    if let StampPhase::Raise { era, next } = stamp.phase {
        assert forall|i: int| stamp.first <= i <= next implies (#[trigger] after.eras[i])
            >= era by {
            if i < next {
                assert(map.eras[i] >= era);
            }
        }
        assert(stamp.raised(after, era, next + 1));
    }
}

/// A stamp for a write goes from the chunk of its first byte to the chunk of
/// its last, or of the last byte on the device.
pub proof fn a_stamp_spans_its_write(stamp: Stamp, map: EraMap, offset: u64, len: u64)
    requires
        map.wf(),
        stamp.is_for(map, offset, len),
    ensures
        len > 0,
        stamp.first == offset as int / (map.granularity as int),
        ({
            let end = (offset + len - 1) / (map.granularity as int);
            stamp.last == if end < map.eras.len() {
                end
            } else {
                map.eras.len() - 1
            }
        }),
{
    let g = map.granularity as int;
    let first = offset as int / g;
    let end = (offset + len - 1) / g;
    assert(map.touched(offset, len, stamp.first as int));
    assert(map.touched(offset, len, stamp.last as int));
    assert(0 <= first) by (nonlinear_arith)
        requires
            g > 0,
            first == offset as int / g,
    ;
    assert(map.touched(offset, len, first));
    let top = if end < map.eras.len() {
        end
    } else {
        map.eras.len() - 1
    };
    assert(map.touched(offset, len, top));
}

} // verus!
