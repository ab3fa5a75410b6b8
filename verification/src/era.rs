//! Change tracking: the device is divided into fixed-size chunks (the
//! granularity), and each chunk records the era in which it was last written.
//! A checkpoint bumps the current era, so "changed since checkpoint N" is
//! "chunks whose era is above N".

use vstd::arithmetic::power2::is_pow2;
use vstd::prelude::*;

verus! {

/// A contiguous byte range of the device that changed.
#[derive(Clone, Copy, Debug, PartialEq, Eq, Structural)]
pub struct DirtyRange {
    pub offset: u64,
    pub len: u64,
}

impl DirtyRange {
    /// One past the last byte of the range.
    pub open spec fn end(self) -> int {
        self.offset + self.len
    }

    pub open spec fn has(self, byte: int) -> bool {
        self.offset <= byte < self.end()
    }
}

/// What a tracked device knows about its history.
#[verifier::ext_equal]
pub struct EraMap {
    pub granularity: u64,
    pub dev_size: u64,
    /// Identity of this history; see `EraState::generation`.
    pub generation: u64,
    pub current_era: u32,
    /// The era in which each chunk was last written, 0 for never.
    pub eras: Seq<u32>,
}

/// The chunk sizes that tracking accepts.
pub open spec fn valid_granularity(granularity: u64) -> bool {
    is_pow2(granularity as int) && granularity >= 4096
}

/// How many chunks cover `dev_size` bytes.
pub open spec fn chunk_count(dev_size: u64, granularity: u64) -> int {
    (dev_size + granularity - 1) / (granularity as int)
}

pub open spec fn max_era(a: u32, b: u32) -> u32 {
    if a < b {
        b
    } else {
        a
    }
}

impl EraMap {
    pub open spec fn wf(self) -> bool {
        &&& valid_granularity(self.granularity)
        &&& self.eras.len() == chunk_count(self.dev_size, self.granularity)
    }

    /// The chunk that holds a byte.
    pub open spec fn chunk_of(self, byte: int) -> int {
        byte / (self.granularity as int)
    }

    /// Chunk `i` shares a byte with `[offset, offset + len)`.
    pub open spec fn touched(self, offset: u64, len: u64, i: int) -> bool {
        &&& len > 0
        &&& self.chunk_of(offset as int) <= i <= self.chunk_of(offset + len - 1)
    }

    /// The map after a write to `[offset, offset + len)` in the current era.
    /// A stamp never lowers an era.
    pub open spec fn marked(self, offset: u64, len: u64) -> EraMap {
        EraMap {
            eras: Seq::new(
                self.eras.len(),
                |i: int|
                    if self.touched(offset, len, i) {
                        max_era(self.eras[i], self.current_era)
                    } else {
                        self.eras[i]
                    },
            ),
            ..self
        }
    }

    /// The map after the current era closed.
    pub open spec fn checkpointed(self) -> EraMap {
        EraMap { current_era: (self.current_era + 1) as u32, ..self }
    }

    /// The map after every chunk counts as written in the current era.
    pub open spec fn all_dirty(self) -> EraMap {
        EraMap {
            eras: Seq::new(self.eras.len(), |i: int| max_era(self.eras[i], self.current_era)),
            ..self
        }
    }

    /// A byte whose chunk was written in an era newer than `since`.
    pub open spec fn changed(self, since: u32, byte: int) -> bool {
        self.eras[self.chunk_of(byte)] > since
    }

    /// How many chunks were ever written.
    pub open spec fn written(self) -> nat {
        self.eras.filter(|e: u32| e > 0).len()
    }

    /// The map of a history that begins: nothing written, era 1.
    pub open spec fn fresh(dev_size: u64, granularity: u64, generation: u64) -> EraMap {
        EraMap {
            granularity,
            dev_size,
            generation,
            current_era: 1,
            eras: Seq::new(chunk_count(dev_size, granularity) as nat, |i: int| 0u32),
        }
    }
}

/// Some range holds `byte`.
pub open spec fn covered(ranges: Seq<DirtyRange>, byte: int) -> bool {
    exists|k: int| 0 <= k < ranges.len() && (#[trigger] ranges[k]).has(byte)
}

/// `ranges` is the answer to "what changed since `since`": sorted, merged as
/// far as possible, made of whole chunks (clamped to the device end), and
/// holding a byte exactly when its chunk was written in an era newer than
/// `since`.
pub open spec fn is_diff(map: EraMap, since: u32, ranges: Seq<DirtyRange>) -> bool {
    &&& forall|k: int|
        0 <= k < ranges.len() ==> {
            &&& (#[trigger] ranges[k]).len > 0
            &&& ranges[k].offset as int % map.granularity as int == 0
            &&& ranges[k].end() <= map.dev_size
            &&& ranges[k].end() % (map.granularity as int) == 0 || ranges[k].end() == map.dev_size
        }
    &&& forall|j: int, k: int|
        0 <= j < k < ranges.len() ==> (#[trigger] ranges[j]).end() < (#[trigger] ranges[k]).offset
    &&& forall|byte: int|
        0 <= byte < map.dev_size ==> (#[trigger] covered(ranges, byte) <==> map.changed(
            since,
            byte,
        ))
}

/// The total number of bytes in `ranges`.
pub open spec fn total_len(ranges: Seq<DirtyRange>) -> nat
    decreases ranges.len(),
{
    if ranges.len() == 0 {
        0
    } else {
        total_len(ranges.drop_last()) + ranges.last().len as nat
    }
}

pub proof fn lemma_chunk_starts_inside(dev_size: u64, granularity: u64, i: int)
    requires
        granularity > 0,
        0 <= i < chunk_count(dev_size, granularity),
    ensures
        i * granularity < dev_size,
{
    let g = granularity as int;
    let n = chunk_count(dev_size, granularity);
    assert(i * g < dev_size) by (nonlinear_arith)
        requires
            g > 0,
            n == (dev_size + g - 1) / g,
            i < n,
    ;
}

pub proof fn lemma_chunks_reach_end(dev_size: u64, granularity: u64)
    requires
        granularity > 0,
    ensures
        chunk_count(dev_size, granularity) * granularity >= dev_size,
        chunk_count(dev_size, granularity) >= 0,
        chunk_count(dev_size, granularity) <= dev_size,
{
    let g = granularity as int;
    let n = chunk_count(dev_size, granularity);
    assert(n * g >= dev_size && n >= 0 && n <= dev_size) by (nonlinear_arith)
        requires
            g > 0,
            n == (dev_size + g - 1) / g,
            dev_size >= 0,
    ;
}

pub proof fn lemma_chunk_of(granularity: u64, i: int, byte: int)
    requires
        granularity > 0,
        i * granularity <= byte < (i + 1) * granularity,
    ensures
        byte / (granularity as int) == i,
{
    let g = granularity as int;
    assert(byte / g == i) by (nonlinear_arith)
        requires
            g > 0,
            i * g <= byte < (i + 1) * g,
    ;
}

/// Every byte of the device lies in one of its chunks.
pub proof fn lemma_chunk_exists(dev_size: u64, granularity: u64, byte: int)
    requires
        granularity > 0,
        0 <= byte < dev_size,
    ensures
        0 <= byte / (granularity as int) < chunk_count(dev_size, granularity),
{
    let g = granularity as int;
    let n = chunk_count(dev_size, granularity);
    let c = byte / g;
    assert(0 <= c < n) by (nonlinear_arith)
        requires
            g > 0,
            n == (dev_size + g - 1) / g,
            c == byte / g,
            0 <= byte < dev_size,
    ;
}

/// Whether `granularity` is a chunk size that tracking accepts.
pub fn check_granularity(granularity: u64) -> (ok: bool)
    ensures
        ok == valid_granularity(granularity),
{
    if granularity < 4096 {
        return false;
    }
    crate::number::power_of_two(granularity)
}

pub struct EraState {
    pub granularity: u64,
    pub dev_size: u64,
    /// Identity of this tracking history. Era numbers are small naturals that
    /// restart at 1 whenever tracking starts fresh, so a bare era cursor can
    /// collide with a *different* history and silently mean the wrong thing.
    /// The generation is random per history and survives save and load, so a
    /// cursor is safe when carried as (generation, era).
    pub generation: u64,
    pub current_era: u32,
    /// The era in which each chunk was last written, 0 for never.
    pub eras: Vec<u32>,
}

impl View for EraState {
    type V = EraMap;

    open spec fn view(&self) -> EraMap {
        EraMap {
            granularity: self.granularity,
            dev_size: self.dev_size,
            generation: self.generation,
            current_era: self.current_era,
            eras: self.eras@,
        }
    }
}

impl EraState {
    pub open spec fn wf(&self) -> bool {
        self@.wf()
    }

    /// Begin a history for a device of `dev_size` bytes. `generation` is to be
    /// drawn at random. An unacceptable granularity comes back as the error.
    pub fn new(dev_size: u64, granularity: u64, generation: u64) -> (res: Result<Self, u64>)
        requires
            valid_granularity(granularity) ==> chunk_count(dev_size, granularity) <= usize::MAX,
        ensures
            valid_granularity(granularity) <==> res is Ok,
            res matches Ok(state) ==> state.wf() && state@ == EraMap::fresh(
                dev_size,
                granularity,
                generation,
            ),
            res matches Err(bad) ==> bad == granularity,
    {
        if !check_granularity(granularity) {
            return Err(granularity);
        }
        proof {
            lemma_chunks_reach_end(dev_size, granularity);
        }
        let nr_chunks: u64 = count_chunks(dev_size, granularity);
        let eras: Vec<u32> = vec![0u32; nr_chunks as usize];
        let state = EraState { granularity, dev_size, generation, current_era: 1, eras };
        proof {
            assert(state@.eras =~= EraMap::fresh(dev_size, granularity, generation).eras);
        }
        Ok(state)
    }

    pub fn nr_chunks(&self) -> (n: u64)
        requires
            self.wf(),
        ensures
            n == self@.eras.len(),
            n == chunk_count(self.dev_size, self.granularity),
    {
        self.eras.len() as u64
    }

    pub fn current_era(&self) -> (era: u32)
        ensures
            era == self@.current_era,
    {
        self.current_era
    }

    /// Close the current era and start a new one.
    /// Returns (closed_era, new_current_era).
    pub fn checkpoint(&mut self) -> (eras: (u32, u32))
        requires
            old(self).wf(),
            old(self)@.current_era < u32::MAX,
        ensures
            final(self).wf(),
            final(self)@ == old(self)@.checkpointed(),
            eras.0 == old(self)@.current_era,
            eras.1 == old(self)@.current_era + 1,
    {
        let closed: u32 = self.current_era;
        self.current_era = closed + 1;
        (closed, closed + 1)
    }

    pub fn written_chunks(&self) -> (n: u64)
        requires
            self.wf(),
        ensures
            n == self@.written(),
    {
        let mut n: u64 = 0;
        let mut i: usize = 0;
        let ghost ever = |e: u32| e > 0;
        proof {
            reveal(Seq::filter);
            assert(self.eras@.take(0) =~= Seq::empty());
        }
        while i < self.eras.len()
            invariant
                i <= self.eras@.len(),
                n <= i,
                ever == (|e: u32| e > 0),
                n == self.eras@.take(i as int).filter(ever).len(),
            decreases self.eras.len() - i,
        {
            proof {
                reveal(Seq::filter);
                assert(self.eras@.take(i + 1).drop_last() =~= self.eras@.take(i as int));
            }
            if self.eras[i] > 0 {
                n = n + 1;
            }
            i = i + 1;
        }
        proof {
            assert(self.eras@.take(self.eras@.len() as int) =~= self.eras@);
        }
        n
    }

    /// Chunks written in an era newer than `since`, merged into contiguous
    /// byte ranges. `since = 0` returns everything ever written.
    pub fn ranges_since(&self, since: u32) -> (ranges: Vec<DirtyRange>)
        requires
            self.wf(),
        ensures
            is_diff(self@, since, ranges@),
    {
        let mut ranges: Vec<DirtyRange> = Vec::new();
        let n: usize = self.eras.len();
        let mut idx: usize = 0;
        let mut offset: u64 = 0;
        let ghost map = self@;
        proof {
            lemma_chunks_reach_end(map.dev_size, map.granularity);
        }
        while idx < n
            invariant
                map == self@,
                map.wf(),
                idx <= n == self.eras@.len(),
                idx < n ==> offset == idx * map.granularity,
                idx == n ==> offset == map.dev_size,
                is_diff_below(map, since, ranges@, offset as int),
            decreases n - idx,
        {
            proof {
                lemma_chunk_starts_inside(map.dev_size, map.granularity, idx as int);
                lemma_chunks_reach_end(map.dev_size, map.granularity);
            }
            let rest: u64 = self.dev_size - offset;
            let len: u64 = if self.granularity < rest {
                self.granularity
            } else {
                rest
            };
            proof {
                let g = map.granularity as int;
                if idx + 1 < n {
                    lemma_chunk_starts_inside(map.dev_size, map.granularity, idx + 1);
                }
                assert((idx + 1) * g == idx * g + g) by (nonlinear_arith);
                assert(len == g || offset + len == map.dev_size);
                assert forall|byte: int| offset <= byte < offset + len implies map.chunk_of(byte)
                    == idx by {
                    lemma_chunk_of(map.granularity, idx as int, byte);
                }
                assert(offset as int % g == 0) by (nonlinear_arith)
                    requires
                        g > 0,
                        offset == idx * g,
                ;
                assert((offset + g) % g == 0) by (nonlinear_arith)
                    requires
                        g > 0,
                        offset as int % g == 0,
                ;
            }
            let ghost before = ranges@;
            if self.eras[idx] > since {
                let count: usize = ranges.len();
                if count > 0 && ranges[count - 1].offset + ranges[count - 1].len == offset {
                    let last: DirtyRange = ranges[count - 1];
                    let longer = DirtyRange { offset: last.offset, len: last.len + len };
                    ranges.set(count - 1, longer);
                    proof {
                        lemma_diff_grows(map, since, before, ranges@, offset as int, len as int);
                    }
                } else {
                    ranges.push(DirtyRange { offset, len });
                    proof {
                        lemma_diff_pushes(map, since, before, offset, len);
                    }
                }
            } else {
                proof {
                    lemma_diff_skips(map, since, before, offset as int, len as int);
                }
            }
            offset = offset + len;
            idx = idx + 1;
        }
        ranges
    }

    /// Treat every chunk as written in the current era. Used when metadata
    /// turns out to be stale (unclean shutdown): a diff since any older era
    /// then reports the whole device, so the consumer's next incremental
    /// backup is a full copy.
    pub fn mark_all_dirty(&mut self)
        requires
            old(self).wf(),
        ensures
            final(self).wf(),
            final(self)@ == old(self)@.all_dirty(),
    {
        let ghost before = self@;
        let era: u32 = self.current_era;
        let n: usize = self.eras.len();
        let mut i: usize = 0;
        while i < n
            invariant
                i <= n,
                n == self.eras@.len(),
                era == before.current_era,
                before.eras.len() == n,
                self@ == (EraMap { eras: self.eras@, ..before }),
                forall|k: int|
                    0 <= k < n ==> self.eras@[k] == if k < i {
                        max_era(before.eras[k], era)
                    } else {
                        before.eras[k]
                    },
            decreases n - i,
        {
            if self.eras[i] < era {
                self.eras.set(i, era);
            }
            i = i + 1;
        }
        proof {
            assert(self@.eras =~= before.all_dirty().eras);
        }
    }
}

/// `ranges` answers "what changed since `since`" for the bytes below `limit`.
spec fn is_diff_below(map: EraMap, since: u32, ranges: Seq<DirtyRange>, limit: int) -> bool {
    &&& forall|k: int|
        0 <= k < ranges.len() ==> {
            &&& (#[trigger] ranges[k]).len > 0
            &&& ranges[k].offset as int % map.granularity as int == 0
            &&& ranges[k].end() <= limit <= map.dev_size
            &&& ranges[k].end() % (map.granularity as int) == 0 || ranges[k].end() == map.dev_size
        }
    &&& forall|j: int, k: int|
        0 <= j < k < ranges.len() ==> (#[trigger] ranges[j]).end() < (#[trigger] ranges[k]).offset
    &&& forall|byte: int|
        0 <= byte < limit ==> (#[trigger] covered(ranges, byte) <==> map.changed(since, byte))
}

/// A chunk that did not change leaves the ranges as they are.
proof fn lemma_diff_skips(map: EraMap, since: u32, ranges: Seq<DirtyRange>, offset: int, len: int)
    requires
        is_diff_below(map, since, ranges, offset),
        0 <= offset < offset + len <= map.dev_size,
        forall|byte: int| offset <= byte < offset + len ==> !map.changed(since, byte),
    ensures
        is_diff_below(map, since, ranges, offset + len),
{
    assert forall|byte: int| 0 <= byte < offset + len implies (#[trigger] covered(ranges, byte)
        <==> map.changed(since, byte)) by {
        if byte >= offset {
            assert(!covered(ranges, byte));
        }
    }
}

/// A changed chunk that touches no range begins one.
proof fn lemma_diff_pushes(map: EraMap, since: u32, ranges: Seq<DirtyRange>, offset: u64, len: u64)
    requires
        is_diff_below(map, since, ranges, offset as int),
        0 < len,
        offset + len <= map.dev_size,
        offset as int % map.granularity as int == 0,
        (offset + len) % (map.granularity as int) == 0 || offset + len == map.dev_size,
        ranges.len() > 0 ==> ranges.last().end() != offset,
        forall|byte: int| offset <= byte < offset + len ==> map.changed(since, byte),
    ensures
        is_diff_below(
            map,
            since,
            ranges.push(DirtyRange { offset, len }),
            offset + len,
        ),
{
    let last = DirtyRange { offset, len };
    let longer = ranges.push(last);
    assert forall|j: int, k: int| 0 <= j < k < longer.len() implies (#[trigger] longer[j]).end() < (
    #[trigger] longer[k]).offset by {
        if k == ranges.len() && j < ranges.len() - 1 {
            assert(ranges[j].end() < ranges[ranges.len() - 1].offset);
        }
    }
    assert forall|byte: int| 0 <= byte < offset + len implies (#[trigger] covered(longer, byte)
        <==> map.changed(since, byte)) by {
        if byte >= offset {
            assert(longer[ranges.len() as int].has(byte));
        } else {
            assert(covered(ranges, byte) <==> map.changed(since, byte));
            if covered(ranges, byte) {
                let k = choose|k: int| 0 <= k < ranges.len() && (#[trigger] ranges[k]).has(byte);
                assert(longer[k].has(byte));
            }
            if covered(longer, byte) {
                let k = choose|k: int| 0 <= k < longer.len() && (#[trigger] longer[k]).has(byte);
                assert(ranges[k].has(byte));
            }
        }
    }
}

/// A changed chunk that touches the last range makes it longer.
proof fn lemma_diff_grows(
    map: EraMap,
    since: u32,
    ranges: Seq<DirtyRange>,
    longer: Seq<DirtyRange>,
    offset: int,
    len: int,
)
    requires
        is_diff_below(map, since, ranges, offset),
        0 <= offset < offset + len <= map.dev_size,
        (offset + len) % (map.granularity as int) == 0 || offset + len == map.dev_size,
        ranges.len() > 0,
        ranges.last().end() == offset,
        longer.len() == ranges.len(),
        forall|k: int| 0 <= k < ranges.len() - 1 ==> longer[k] == ranges[k],
        longer.last().offset == ranges.last().offset,
        longer.last().len == ranges.last().len + len,
        forall|byte: int| offset <= byte < offset + len ==> map.changed(since, byte),
    ensures
        is_diff_below(map, since, longer, offset + len),
{
    let top = ranges.len() - 1;
    assert(longer.last() == longer[top] && ranges.last() == ranges[top]);
    assert forall|byte: int| 0 <= byte < offset + len implies (#[trigger] covered(longer, byte)
        <==> map.changed(since, byte)) by {
        if byte >= offset {
            assert(longer[top].has(byte));
        } else {
            assert(covered(ranges, byte) <==> map.changed(since, byte));
            if covered(ranges, byte) {
                let k = choose|k: int| 0 <= k < ranges.len() && (#[trigger] ranges[k]).has(byte);
                assert(longer[k].has(byte));
            }
            if covered(longer, byte) {
                let k = choose|k: int| 0 <= k < longer.len() && (#[trigger] longer[k]).has(byte);
                assert(ranges[k].has(byte));
            }
        }
    }
}

/// How many chunks cover `dev_size` bytes.
pub fn count_chunks(dev_size: u64, granularity: u64) -> (n: u64)
    requires
        granularity > 0,
    ensures
        n == chunk_count(dev_size, granularity),
{
    let whole: u64 = dev_size / granularity;
    let part: u64 = dev_size % granularity;
    proof {
        let g = granularity as int;
        let d = dev_size as int;
        assert(d / g <= d && (d + g - 1) / g == if d % g == 0 {
            d / g
        } else {
            d / g + 1
        }) by (nonlinear_arith)
            requires
                g > 0,
                d >= 0,
        ;
        assert(part > 0 ==> d / g < u64::MAX) by (nonlinear_arith)
            requires
                g > 0,
                part == d % g,
                d <= u64::MAX,
        ;
    }
    if part > 0 {
        whole + 1
    } else {
        whole
    }
}

/// A state stands for the map that its fields hold, and a range for its bytes.
pub proof fn a_state_is_its_map(s: EraState, r: DirtyRange, byte: int)
    ensures
        s@.granularity == s.granularity,
        s@.dev_size == s.dev_size,
        s@.generation == s.generation,
        s@.current_era == s.current_era,
        s@.eras == s.eras@,
        r.has(byte) <==> r.offset <= byte && byte - r.offset < r.len,
{
}

} // verus!
