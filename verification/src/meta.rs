//! The metadata file: how an era map is written down and read back.
//!
//! A header of magic, version, granularity, device size, current era, chunk
//! count, clean flag, generation and checksum, all little-endian, followed by
//! four bytes of era for each chunk. The checksum covers the whole file with
//! its own field zeroed. It catches bit rot and truncation: a damaged era map
//! would silently under-report changes.

use vstd::prelude::*;

use crate::bytes::{get_le, le_bytes, le_value, put_le};
use crate::crc::{crc32, crc_of};
use crate::era::{EraMap, EraState};
use crate::text::{decimal, push_decimal};

verus! {

pub const META_VERSION: u32 = 4;

/// Length of the header.
pub const HDR_LEN: usize = 56;

/// Where the checksum stands in the header.
pub const CRC_OFF: usize = 52;

/// Why a metadata file was not accepted.
#[derive(Clone, Copy, Debug, PartialEq, Eq, Structural)]
pub enum LoadError {
    Truncated,
    NotMetadata,
    UnsupportedVersion { version: u32 },
    ChecksumMismatch,
    GranularityMismatch { found: u64, requested: u64 },
    SizeMismatch { found: u64, backing: u64 },
    BadGranularity { granularity: u64 },
    ChunkCountMismatch,
    BodyLengthMismatch,
}

/// The text "UBLKERA1".
pub open spec fn magic() -> Seq<u8> {
    seq![0x55u8, 0x42, 0x4C, 0x4B, 0x45, 0x52, 0x41, 0x31]
}

/// The header up to the checksum.
pub open spec fn header_fields(map: EraMap, clean: bool) -> Seq<u8> {
    magic() + le_bytes(META_VERSION as nat, 4) + le_bytes(map.granularity as nat, 8) + le_bytes(
        map.dev_size as nat,
        8,
    ) + le_bytes(map.current_era as nat, 4) + le_bytes(map.eras.len(), 8) + le_bytes(
        if clean {
            1
        } else {
            0
        },
        4,
    ) + le_bytes(map.generation as nat, 8)
}

/// The eras of all chunks, four bytes each.
pub open spec fn body(eras: Seq<u32>) -> Seq<u8>
    decreases eras.len(),
{
    if eras.len() == 0 {
        Seq::empty()
    } else {
        body(eras.drop_last()) + le_bytes(eras.last() as nat, 4)
    }
}

/// The file with `crc` in the checksum field.
pub open spec fn file_with(map: EraMap, clean: bool, crc: u32) -> Seq<u8> {
    header_fields(map, clean) + le_bytes(crc as nat, 4) + body(map.eras)
}

/// The metadata file for `map`. `clean` records whether the snapshot is
/// complete: no write can follow it.
pub open spec fn encode(map: EraMap, clean: bool) -> Seq<u8> {
    file_with(map, clean, crc_of(file_with(map, clean, 0)))
}

/// The number in the `n` bytes at `at`.
pub open spec fn field(raw: Seq<u8>, at: int, n: int) -> nat {
    le_value(raw.subrange(at, at + n))
}

/// `raw` with its checksum field zeroed.
pub open spec fn unsealed(raw: Seq<u8>) -> Seq<u8> {
    Seq::new(
        raw.len(),
        |i: int|
            if CRC_OFF <= i < HDR_LEN {
                0u8
            } else {
                raw[i]
            },
    )
}

/// The era map that a file holds, for a device of `dev_size` bytes tracked at
/// `granularity`, and whether it is complete; or why it is not accepted.
pub open spec fn decode(raw: Seq<u8>, dev_size: u64, granularity: u64) -> Result<
    (EraMap, bool),
    LoadError,
> {
    if raw.len() < HDR_LEN {
        Err(LoadError::Truncated)
    } else if raw.subrange(0, 8) != magic() {
        Err(LoadError::NotMetadata)
    } else if field(raw, 8, 4) != META_VERSION {
        Err(LoadError::UnsupportedVersion { version: field(raw, 8, 4) as u32 })
    } else if field(raw, CRC_OFF as int, 4) != crc_of(unsealed(raw)) {
        Err(LoadError::ChecksumMismatch)
    } else if field(raw, 12, 8) != granularity {
        Err(
            LoadError::GranularityMismatch {
                found: field(raw, 12, 8) as u64,
                requested: granularity,
            },
        )
    } else if field(raw, 20, 8) != dev_size {
        Err(LoadError::SizeMismatch { found: field(raw, 20, 8) as u64, backing: dev_size })
    } else if !crate::era::valid_granularity(granularity) {
        Err(LoadError::BadGranularity { granularity })
    } else if field(raw, 32, 8) != crate::era::chunk_count(dev_size, granularity) {
        Err(LoadError::ChunkCountMismatch)
    } else if raw.len() - HDR_LEN != 4 * crate::era::chunk_count(dev_size, granularity) {
        Err(LoadError::BodyLengthMismatch)
    } else {
        Ok(
            (
                EraMap {
                    granularity,
                    dev_size,
                    generation: field(raw, 44, 8) as u64,
                    current_era: field(raw, 28, 4) as u32,
                    eras: Seq::new(
                        crate::era::chunk_count(dev_size, granularity) as nat,
                        |i: int| field(raw, HDR_LEN + 4 * i, 4) as u32,
                    ),
                },
                field(raw, 40, 4) != 0,
            ),
        )
    }
}

proof fn lemma_body_len(eras: Seq<u32>)
    ensures
        body(eras).len() == 4 * eras.len(),
    decreases eras.len(),
{
    if eras.len() > 0 {
        lemma_body_len(eras.drop_last());
        crate::bytes::lemma_le_bytes_len(eras.last() as nat, 4);
    }
}

proof fn lemma_header_len(map: EraMap, clean: bool)
    ensures
        header_fields(map, clean).len() == CRC_OFF,
{
    crate::bytes::lemma_le_bytes_len(META_VERSION as nat, 4);
    crate::bytes::lemma_le_bytes_len(map.granularity as nat, 8);
    crate::bytes::lemma_le_bytes_len(map.dev_size as nat, 8);
    crate::bytes::lemma_le_bytes_len(map.current_era as nat, 4);
    crate::bytes::lemma_le_bytes_len(map.eras.len(), 8);
    crate::bytes::lemma_le_bytes_len(
        if clean {
            1
        } else {
            0
        },
        4,
    );
    crate::bytes::lemma_le_bytes_len(map.generation as nat, 8);
}

impl EraState {
    /// The bytes to persist. `clean` records whether this snapshot is
    /// complete: false while the device is attached (writes keep landing
    /// after the save), true only on a final save when no more writes can
    /// happen. A crash leaves the last save marked unclean, which the next
    /// attach turns into "everything changed".
    pub fn save(&self, clean: bool) -> (raw: Vec<u8>)
        requires
            self.wf(),
        ensures
            raw@ == encode(self@, clean),
    {
        let mut buf: Vec<u8> = Vec::new();
        buf.push(0x55);
        buf.push(0x42);
        buf.push(0x4C);
        buf.push(0x4B);
        buf.push(0x45);
        buf.push(0x52);
        buf.push(0x41);
        buf.push(0x31);
        proof {
            assert(buf@ =~= magic());
        }
        put_le(&mut buf, META_VERSION as u64, 4);
        put_le(&mut buf, self.granularity, 8);
        put_le(&mut buf, self.dev_size, 8);
        put_le(&mut buf, self.current_era as u64, 4);
        put_le(&mut buf, self.eras.len() as u64, 8);
        let flag: u64 = if clean {
            1
        } else {
            0
        };
        put_le(&mut buf, flag, 4);
        put_le(&mut buf, self.generation, 8);
        let ghost fields = header_fields(self@, clean);
        proof {
            assert(buf@ =~= fields);
            lemma_header_len(self@, clean);
        }
        put_le(&mut buf, 0, 4);
        let ghost head = fields + le_bytes(0, 4);
        let n: usize = self.eras.len();
        let mut i: usize = 0;
        proof {
            assert(self.eras@.take(0) =~= Seq::empty());
            assert(head + body(self.eras@.take(0)) =~= head);
        }
        while i < n
            invariant
                i <= n == self.eras@.len(),
                buf@ == head + body(self.eras@.take(i as int)),
            decreases n - i,
        {
            let ghost done = body(self.eras@.take(i as int));
            put_le(&mut buf, self.eras[i] as u64, 4);
            proof {
                let next = self.eras@.take(i + 1);
                assert(next.drop_last() =~= self.eras@.take(i as int));
                assert(next.last() == self.eras@[i as int]);
                assert((head + done) + le_bytes(next.last() as nat, 4) =~= head + (done
                    + le_bytes(next.last() as nat, 4)));
            }
            i = i + 1;
        }
        proof {
            assert(self.eras@.take(n as int) =~= self.eras@);
            assert(buf@ == file_with(self@, clean, 0));
        }
        let crc: u32 = checksum_of(&buf);
        let mut seal: Vec<u8> = Vec::new();
        put_le(&mut seal, crc as u64, 4);
        proof {
            crate::bytes::lemma_le_bytes_len(crc as nat, 4);
            crate::bytes::lemma_le_bytes_len(0, 4);
            assert(seal@ =~= le_bytes(crc as nat, 4));
        }
        let ghost blank = buf@;
        let mut k: usize = 0;
        while k < 4
            invariant
                k <= 4,
                seal@.len() == 4,
                buf@.len() == blank.len() >= HDR_LEN,
                forall|j: int|
                    0 <= j < blank.len() ==> buf@[j] == if CRC_OFF <= j < CRC_OFF + k {
                        seal@[j - CRC_OFF]
                    } else {
                        blank[j]
                    },
            decreases 4 - k,
        {
            buf.set(CRC_OFF + k, seal[k]);
            k = k + 1;
        }
        proof {
            assert(buf@ =~= file_with(self@, clean, crc));
        }
        buf
    }
}

impl EraState {
    /// Read a saved state back; granularity and device size must match.
    /// Returns the state and whether the save was clean (complete). Any
    /// corruption (bit rot, truncation, trailing garbage) is an error:
    /// metadata is disposable, so the remedy is to delete the file, never to
    /// trust a damaged era map.
    pub fn load(raw: &[u8], dev_size: u64, granularity: u64) -> (res: Result<
        (Self, bool),
        LoadError,
    >)
        ensures
            match (res, decode(raw@, dev_size, granularity)) {
                (Ok((state, clean)), Ok((map, was_clean))) => state.wf() && state@ == map && clean
                    == was_clean,
                (Err(e), Err(why)) => e == why,
                _ => false,
            },
    {
        proof {
            crate::bytes::lemma_byte_span_values();
        }
        let total: usize = raw.len();
        if total < HDR_LEN {
            return Err(LoadError::Truncated);
        }
        if !has_magic(raw) {
            return Err(LoadError::NotMetadata);
        }
        let version: u32 = get_le(raw, 8, 4) as u32;
        if version != META_VERSION {
            return Err(LoadError::UnsupportedVersion { version });
        }
        // Integrity before meaning: everything below trusts these bytes.
        let stored: u32 = get_le(raw, CRC_OFF, 4) as u32;
        if stored != unsealed_checksum(raw) {
            return Err(LoadError::ChecksumMismatch);
        }
        let found: u64 = get_le(raw, 12, 8);
        if found != granularity {
            return Err(LoadError::GranularityMismatch { found, requested: granularity });
        }
        let size: u64 = get_le(raw, 20, 8);
        if size != dev_size {
            return Err(LoadError::SizeMismatch { found: size, backing: dev_size });
        }
        if !crate::era::check_granularity(granularity) {
            return Err(LoadError::BadGranularity { granularity });
        }
        let chunks: u64 = crate::era::count_chunks(dev_size, granularity);
        if get_le(raw, 32, 8) != chunks {
            return Err(LoadError::ChunkCountMismatch);
        }
        let rest: usize = total - HDR_LEN;
        if rest % 4 != 0 || (rest / 4) as u64 != chunks {
            return Err(LoadError::BodyLengthMismatch);
        }
        let n: usize = rest / 4;
        let mut eras: Vec<u32> = Vec::new();
        let mut i: usize = 0;
        while i < n
            invariant
                i <= n,
                total == raw@.len() == HDR_LEN + 4 * n,
                eras@.len() == i,
                crate::bytes::byte_span(4) == 0x1_0000_0000,
                forall|k: int| 0 <= k < i ==> eras@[k] == field(raw@, HDR_LEN + 4 * k, 4) as u32,
            decreases n - i,
        {
            eras.push(get_le(raw, HDR_LEN + 4 * i, 4) as u32);
            i = i + 1;
        }
        let state = EraState {
            granularity,
            dev_size,
            generation: get_le(raw, 44, 8),
            current_era: get_le(raw, 28, 4) as u32,
            eras,
        };
        let clean: bool = get_le(raw, 40, 4) != 0;
        proof {
            assert(state@.eras =~= decode(raw@, dev_size, granularity)->Ok_0.0.eras);
        }
        Ok((state, clean))
    }
}

/// Whether the file begins as a metadata file does.
fn has_magic(raw: &[u8]) -> (ok: bool)
    requires
        raw@.len() >= 8,
    ensures
        ok == (raw@.subrange(0, 8) == magic()),
{
    let ok: bool = raw[0] == 0x55 && raw[1] == 0x42 && raw[2] == 0x4C && raw[3] == 0x4B && raw[4]
        == 0x45 && raw[5] == 0x52 && raw[6] == 0x41 && raw[7] == 0x31;
    proof {
        let head = raw@.subrange(0, 8);
        if ok {
            assert(head =~= magic());
        } else {
            assert(head[0] != magic()[0] || head[1] != magic()[1] || head[2] != magic()[2]
                || head[3] != magic()[3] || head[4] != magic()[4] || head[5] != magic()[5]
                || head[6] != magic()[6] || head[7] != magic()[7]);
        }
    }
    ok
}

/// The CRC-32 of a file with its checksum field zeroed.
fn unsealed_checksum(raw: &[u8]) -> (crc: u32)
    requires
        raw@.len() >= HDR_LEN,
    ensures
        crc == crc_of(unsealed(raw@)),
{
    let mut hdr: Vec<u8> = Vec::new();
    let mut i: usize = 0;
    while i < HDR_LEN
        invariant
            i <= HDR_LEN <= raw@.len(),
            hdr@.len() == i,
            forall|k: int| 0 <= k < i ==> hdr@[k] == unsealed(raw@)[k],
        decreases HDR_LEN - i,
    {
        hdr.push(
            if i < CRC_OFF {
                raw[i]
            } else {
                0
            },
        );
        i = i + 1;
    }
    let rest: &[u8] = vstd::slice::slice_subrange(raw, HDR_LEN, raw.len());
    let parts: [&[u8]; 2] = [hdr.as_slice(), rest];
    let crc: u32 = crc32(&parts);
    proof {
        reveal_with_fuel(crate::crc::concat, 3);
        assert(crate::crc::concat(parts@) =~= unsealed(raw@));
    }
    crc
}

/// The CRC-32 of one buffer.
fn checksum_of(data: &[u8]) -> (crc: u32)
    ensures
        crc == crc_of(data@),
{
    let parts: [&[u8]; 1] = [data];
    let crc: u32 = crc32(&parts);
    proof {
        reveal_with_fuel(crate::crc::concat, 2);
        assert(crate::crc::concat(parts@) =~= data@);
    }
    crc
}

/// The pieces that make up a file, one after the other.
proof fn lemma_file_parts(map: EraMap, clean: bool, crc: u32)
    ensures
        ({
            let raw = file_with(map, clean, crc);
            &&& raw.len() == HDR_LEN + 4 * map.eras.len()
            &&& raw.subrange(0, 8) == magic()
            &&& raw.subrange(8, 12) == le_bytes(META_VERSION as nat, 4)
            &&& raw.subrange(12, 20) == le_bytes(map.granularity as nat, 8)
            &&& raw.subrange(20, 28) == le_bytes(map.dev_size as nat, 8)
            &&& raw.subrange(28, 32) == le_bytes(map.current_era as nat, 4)
            &&& raw.subrange(32, 40) == le_bytes(map.eras.len(), 8)
            &&& raw.subrange(40, 44) == le_bytes(
                if clean {
                    1
                } else {
                    0
                },
                4,
            )
            &&& raw.subrange(44, 52) == le_bytes(map.generation as nat, 8)
            &&& raw.subrange(52, 56) == le_bytes(crc as nat, 4)
            &&& raw.skip(56) == body(map.eras)
        }),
{
    let raw = file_with(map, clean, crc);
    let flag: nat = if clean {
        1
    } else {
        0
    };
    lemma_header_len(map, clean);
    lemma_body_len(map.eras);
    crate::bytes::lemma_le_bytes_len(META_VERSION as nat, 4);
    crate::bytes::lemma_le_bytes_len(map.granularity as nat, 8);
    crate::bytes::lemma_le_bytes_len(map.dev_size as nat, 8);
    crate::bytes::lemma_le_bytes_len(map.current_era as nat, 4);
    crate::bytes::lemma_le_bytes_len(map.eras.len(), 8);
    crate::bytes::lemma_le_bytes_len(flag, 4);
    crate::bytes::lemma_le_bytes_len(map.generation as nat, 8);
    crate::bytes::lemma_le_bytes_len(crc as nat, 4);
    assert(raw.subrange(0, 8) =~= magic());
    assert(raw.subrange(8, 12) =~= le_bytes(META_VERSION as nat, 4));
    assert(raw.subrange(12, 20) =~= le_bytes(map.granularity as nat, 8));
    assert(raw.subrange(20, 28) =~= le_bytes(map.dev_size as nat, 8));
    assert(raw.subrange(28, 32) =~= le_bytes(map.current_era as nat, 4));
    assert(raw.subrange(32, 40) =~= le_bytes(map.eras.len(), 8));
    assert(raw.subrange(40, 44) =~= le_bytes(flag, 4));
    assert(raw.subrange(44, 52) =~= le_bytes(map.generation as nat, 8));
    assert(raw.subrange(52, 56) =~= le_bytes(crc as nat, 4));
    assert(raw.skip(56) =~= body(map.eras));
}

proof fn lemma_body_entry(eras: Seq<u32>, i: int)
    requires
        0 <= i < eras.len(),
    ensures
        body(eras).subrange(4 * i, 4 * i + 4) == le_bytes(eras[i] as nat, 4),
    decreases eras.len(),
{
    lemma_body_len(eras.drop_last());
    crate::bytes::lemma_le_bytes_len(eras.last() as nat, 4);
    if i == eras.len() - 1 {
        assert(body(eras).subrange(4 * i, 4 * i + 4) =~= le_bytes(eras[i] as nat, 4));
    } else {
        lemma_body_entry(eras.drop_last(), i);
        assert(body(eras).subrange(4 * i, 4 * i + 4) =~= body(eras.drop_last()).subrange(
            4 * i,
            4 * i + 4,
        ));
    }
}

proof fn lemma_unsealed_file(map: EraMap, clean: bool, crc: u32)
    ensures
        unsealed(file_with(map, clean, crc)) == file_with(map, clean, 0),
{
    lemma_header_len(map, clean);
    crate::bytes::lemma_le_bytes_len(crc as nat, 4);
    crate::bytes::lemma_le_bytes_len(0, 4);
    assert(le_bytes(0, 4) =~= seq![0u8, 0, 0, 0]) by {
        reveal_with_fuel(le_bytes, 5);
    }
    assert(unsealed(file_with(map, clean, crc)) =~= file_with(map, clean, 0));
}

/// A metadata file takes four bytes for each chunk beside the header.
pub proof fn saved_size(map: EraMap, clean: bool)
    ensures
        encode(map, clean).len() == HDR_LEN + 4 * map.eras.len(),
{
    lemma_file_parts(map, clean, crc_of(file_with(map, clean, 0)));
}

/// Loading what was saved gives the state back, with its clean flag.
pub proof fn load_restores_save(map: EraMap, clean: bool)
    requires
        map.wf(),
    ensures
        decode(encode(map, clean), map.dev_size, map.granularity) == Ok::<
            (EraMap, bool),
            LoadError,
        >((map, clean)),
{
    let crc = crc_of(file_with(map, clean, 0));
    let raw = encode(map, clean);
    let size = map.dev_size as int;
    let g = map.granularity as int;
    assert((size + g - 1) / g <= size) by (nonlinear_arith)
        requires
            size >= 0,
            g >= 1,
    ;
    lemma_file_parts(map, clean, crc);
    lemma_unsealed_file(map, clean, crc);
    crate::bytes::lemma_byte_span_values();
    crate::bytes::lemma_le_roundtrip(META_VERSION as nat, 4);
    crate::bytes::lemma_le_roundtrip(map.granularity as nat, 8);
    crate::bytes::lemma_le_roundtrip(map.dev_size as nat, 8);
    crate::bytes::lemma_le_roundtrip(map.current_era as nat, 4);
    crate::bytes::lemma_le_roundtrip(map.eras.len(), 8);
    crate::bytes::lemma_le_roundtrip(0, 4);
    crate::bytes::lemma_le_roundtrip(1, 4);
    crate::bytes::lemma_le_roundtrip(map.generation as nat, 8);
    crate::bytes::lemma_le_roundtrip(crc as nat, 4);
    let got = decode(raw, map.dev_size, map.granularity);
    assert(got is Ok);
    assert forall|i: int| 0 <= i < map.eras.len() implies got->Ok_0.0.eras[i] == map.eras[i] by {
        lemma_body_entry(map.eras, i);
        assert(raw.subrange(HDR_LEN + 4 * i, HDR_LEN + 4 * i + 4) =~= raw.skip(56).subrange(
            4 * i,
            4 * i + 4,
        ));
        crate::bytes::lemma_le_roundtrip(map.eras[i] as nat, 4);
    }
    assert(got->Ok_0.0.eras =~= map.eras);
}

/// A saved file is refused for another device size or granularity.
pub proof fn load_needs_matching_geometry(
    map: EraMap,
    clean: bool,
    dev_size: u64,
    granularity: u64,
)
    requires
        map.wf(),
        dev_size != map.dev_size || granularity != map.granularity,
    ensures
        decode(encode(map, clean), dev_size, granularity) is Err,
{
    lemma_file_parts(map, clean, crc_of(file_with(map, clean, 0)));
    crate::bytes::lemma_byte_span_values();
    crate::bytes::lemma_le_roundtrip(map.granularity as nat, 8);
    crate::bytes::lemma_le_roundtrip(map.dev_size as nat, 8);
}

/// A saved file with its end cut off never loads, wherever the cut is.
pub proof fn truncated_never_loads(
    map: EraMap,
    clean: bool,
    cut: int,
    dev_size: u64,
    granularity: u64,
)
    requires
        map.wf(),
        0 <= cut < encode(map, clean).len(),
    ensures
        decode(encode(map, clean).take(cut), dev_size, granularity) is Err,
{
    let raw = encode(map, clean);
    let short = raw.take(cut);
    lemma_file_parts(map, clean, crc_of(file_with(map, clean, 0)));
    if cut >= HDR_LEN {
        assert(short.subrange(12, 20) =~= raw.subrange(12, 20));
        assert(short.subrange(20, 28) =~= raw.subrange(20, 28));
        crate::bytes::lemma_byte_span_values();
        crate::bytes::lemma_le_roundtrip(map.granularity as nat, 8);
        crate::bytes::lemma_le_roundtrip(map.dev_size as nat, 8);
    }
}

/// A saved file with anything appended never loads.
pub proof fn trailing_bytes_never_load(
    map: EraMap,
    clean: bool,
    extra: Seq<u8>,
    dev_size: u64,
    granularity: u64,
)
    requires
        map.wf(),
        extra.len() > 0,
    ensures
        decode(encode(map, clean) + extra, dev_size, granularity) is Err,
{
    let raw = encode(map, clean);
    let long = raw + extra;
    lemma_file_parts(map, clean, crc_of(file_with(map, clean, 0)));
    assert(long.subrange(12, 20) =~= raw.subrange(12, 20));
    assert(long.subrange(20, 28) =~= raw.subrange(20, 28));
    crate::bytes::lemma_byte_span_values();
    crate::bytes::lemma_le_roundtrip(map.granularity as nat, 8);
    crate::bytes::lemma_le_roundtrip(map.dev_size as nat, 8);
}

proof fn lemma_le_value_injective(a: Seq<u8>, b: Seq<u8>)
    requires
        a.len() == b.len(),
        le_value(a) == le_value(b),
    ensures
        a == b,
    decreases a.len(),
{
    if a.len() > 0 {
        lemma_le_value_injective(a.skip(1), b.skip(1));
        assert forall|i: int| 0 <= i < a.len() implies a[i] == b[i] by {
            if i > 0 {
                assert(a.skip(1)[i - 1] == b.skip(1)[i - 1]);
            }
        }
    }
    assert(a =~= b);
}

/// A saved file with any one byte changed, to whatever value, never loads.
pub proof fn corrupted_never_loads(
    map: EraMap,
    clean: bool,
    i: int,
    b: u8,
    dev_size: u64,
    granularity: u64,
)
    requires
        map.wf(),
        0 <= i < encode(map, clean).len(),
        b != encode(map, clean)[i],
    ensures
        decode(encode(map, clean).update(i, b), dev_size, granularity) is Err,
{
    let crc = crc_of(file_with(map, clean, 0));
    let raw = encode(map, clean);
    let bad = raw.update(i, b);
    lemma_file_parts(map, clean, crc);
    lemma_unsealed_file(map, clean, crc);
    crate::bytes::lemma_byte_span_values();
    crate::bytes::lemma_le_roundtrip(crc as nat, 4);
    if CRC_OFF <= i < HDR_LEN {
        assert(unsealed(bad) =~= unsealed(raw));
        if field(bad, 52, 4) == crc {
            lemma_le_value_injective(bad.subrange(52, 56), raw.subrange(52, 56));
            assert(bad.subrange(52, 56)[i - 52] == raw.subrange(52, 56)[i - 52]);
        }
    } else {
        assert(bad.subrange(52, 56) =~= raw.subrange(52, 56));
        assert(unsealed(bad) =~= unsealed(raw).update(i, b));
        crate::crc::single_byte_change_is_seen(unsealed(raw), i, b);
    }
}

/// The words for a granularity that tracking does not accept.
pub open spec fn granularity_complaint(granularity: u64) -> Seq<char> {
    "granularity must be a power of two >= 4096 (got "@ + decimal(granularity as nat) + ")"@
}

/// The words for a granularity that tracking does not accept.
pub fn complain_granularity(granularity: u64) -> (t: String)
    ensures
        t@ == granularity_complaint(granularity),
{
    let mut t: String = "granularity must be a power of two >= 4096 (got ".to_owned();
    push_decimal(&mut t, granularity);
    t.append(")");
    t
}

/// The words for why the metadata file at `path` was not accepted.
pub open spec fn load_complaint(e: LoadError, path: Seq<char>) -> Seq<char> {
    match e {
        LoadError::Truncated => path + ": truncated metadata file"@,
        LoadError::NotMetadata => path + ": not a ublkera metadata file"@,
        LoadError::UnsupportedVersion { version } => path + ": unsupported metadata version "@
            + decimal(version as nat),
        LoadError::ChecksumMismatch => path
            + ": checksum mismatch (corrupted metadata); delete it to start a fresh history (consumers then fall back to a full copy)"@,
        LoadError::GranularityMismatch { found, requested } => "metadata granularity "@ + decimal(
            found as nat,
        ) + " does not match requested "@ + decimal(requested as nat) + "; delete "@ + path
            + " to start fresh"@,
        LoadError::SizeMismatch { found, backing } => "metadata device size "@ + decimal(
            found as nat,
        ) + " does not match backing size "@ + decimal(backing as nat) + "; delete "@ + path
            + " to start fresh"@,
        LoadError::BadGranularity { granularity } => granularity_complaint(granularity),
        LoadError::ChunkCountMismatch => "metadata chunk count mismatch"@,
        LoadError::BodyLengthMismatch => "metadata body length mismatch"@,
    }
}

impl LoadError {
    pub fn message(&self, path: &str) -> (t: String)
        ensures
            t@ == load_complaint(*self, path@),
    {
        match self {
            LoadError::Truncated => {
                let mut t: String = path.to_owned();
                t.append(": truncated metadata file");
                t
            },
            LoadError::NotMetadata => {
                let mut t: String = path.to_owned();
                t.append(": not a ublkera metadata file");
                t
            },
            LoadError::UnsupportedVersion { version } => {
                let mut t: String = path.to_owned();
                t.append(": unsupported metadata version ");
                push_decimal(&mut t, *version as u64);
                t
            },
            LoadError::ChecksumMismatch => {
                let mut t: String = path.to_owned();
                t.append(
                    ": checksum mismatch (corrupted metadata); delete it to start a fresh history (consumers then fall back to a full copy)",
                );
                t
            },
            LoadError::GranularityMismatch { found, requested } => {
                let mut t: String = "metadata granularity ".to_owned();
                push_decimal(&mut t, *found);
                t.append(" does not match requested ");
                push_decimal(&mut t, *requested);
                t.append("; delete ");
                t.append(path);
                t.append(" to start fresh");
                t
            },
            LoadError::SizeMismatch { found, backing } => {
                let mut t: String = "metadata device size ".to_owned();
                push_decimal(&mut t, *found);
                t.append(" does not match backing size ");
                push_decimal(&mut t, *backing);
                t.append("; delete ");
                t.append(path);
                t.append(" to start fresh");
                t
            },
            LoadError::BadGranularity { granularity } => complain_granularity(*granularity),
            LoadError::ChunkCountMismatch => "metadata chunk count mismatch".to_owned(),
            LoadError::BodyLengthMismatch => "metadata body length mismatch".to_owned(),
        }
    }
}

/// Where everything stands in a saved file, all of it little-endian.
pub proof fn saved_files_have_this_layout(map: EraMap, clean: bool)
    requires
        map.wf(),
    ensures
        ({
            let raw = encode(map, clean);
            &&& raw.len() == 56 + 4 * map.eras.len()
            &&& raw.subrange(0, 8) == seq![0x55u8, 0x42, 0x4C, 0x4B, 0x45, 0x52, 0x41, 0x31]
            &&& le_value(raw.subrange(8, 12)) == 4
            &&& le_value(raw.subrange(12, 20)) == map.granularity
            &&& le_value(raw.subrange(20, 28)) == map.dev_size
            &&& le_value(raw.subrange(28, 32)) == map.current_era
            &&& le_value(raw.subrange(32, 40)) == map.eras.len()
            &&& le_value(raw.subrange(40, 44)) == if clean {
                1nat
            } else {
                0
            }
            &&& le_value(raw.subrange(44, 52)) == map.generation
            &&& le_value(raw.subrange(52, 56)) == crc_of(
                raw.take(52) + seq![0u8, 0, 0, 0] + raw.skip(56),
            )
            &&& forall|i: int|
                0 <= i < map.eras.len() ==> le_value(
                    #[trigger] raw.subrange(56 + 4 * i, 60 + 4 * i),
                ) == map.eras[i]
        }),
{
    let crc = crc_of(file_with(map, clean, 0));
    let raw = encode(map, clean);
    let size = map.dev_size as int;
    let g = map.granularity as int;
    assert((size + g - 1) / g <= size) by (nonlinear_arith)
        requires
            size >= 0,
            g >= 1,
    ;
    lemma_file_parts(map, clean, crc);
    lemma_unsealed_file(map, clean, crc);
    crate::bytes::lemma_byte_span_values();
    crate::bytes::lemma_le_roundtrip(META_VERSION as nat, 4);
    crate::bytes::lemma_le_roundtrip(map.granularity as nat, 8);
    crate::bytes::lemma_le_roundtrip(map.dev_size as nat, 8);
    crate::bytes::lemma_le_roundtrip(map.current_era as nat, 4);
    crate::bytes::lemma_le_roundtrip(map.eras.len(), 8);
    crate::bytes::lemma_le_roundtrip(0, 4);
    crate::bytes::lemma_le_roundtrip(1, 4);
    crate::bytes::lemma_le_roundtrip(map.generation as nat, 8);
    crate::bytes::lemma_le_roundtrip(crc as nat, 4);
    assert(raw.take(52) + seq![0u8, 0, 0, 0] + raw.skip(56) =~= unsealed(raw));
    assert forall|i: int| 0 <= i < map.eras.len() implies le_value(
        #[trigger] raw.subrange(56 + 4 * i, 60 + 4 * i),
    ) == map.eras[i] by {
        lemma_body_entry(map.eras, i);
        assert(raw.subrange(56 + 4 * i, 60 + 4 * i) =~= raw.skip(56).subrange(4 * i, 4 * i + 4));
        crate::bytes::lemma_le_roundtrip(map.eras[i] as nat, 4);
    }
}

/// A file that loads is intact and meant for this device: magic, version,
/// checksum, granularity, size and length all fit, and what is loaded is what
/// stands in it.
pub proof fn what_loads_is_intact(raw: Seq<u8>, dev_size: u64, granularity: u64)
    requires
        decode(raw, dev_size, granularity) is Ok,
    ensures
        ({
            let (map, clean) = decode(raw, dev_size, granularity)->Ok_0;
            &&& map.wf()
            &&& map.dev_size == dev_size
            &&& map.granularity == granularity
            &&& raw.len() == 56 + 4 * map.eras.len()
            &&& raw.subrange(0, 8) == seq![0x55u8, 0x42, 0x4C, 0x4B, 0x45, 0x52, 0x41, 0x31]
            &&& le_value(raw.subrange(8, 12)) == 4
            &&& le_value(raw.subrange(12, 20)) == granularity
            &&& le_value(raw.subrange(20, 28)) == dev_size
            &&& le_value(raw.subrange(28, 32)) == map.current_era
            &&& le_value(raw.subrange(32, 40)) == map.eras.len()
            &&& clean <==> le_value(raw.subrange(40, 44)) != 0
            &&& le_value(raw.subrange(44, 52)) == map.generation
            &&& le_value(raw.subrange(52, 56)) == crc_of(
                raw.take(52) + seq![0u8, 0, 0, 0] + raw.skip(56),
            )
            &&& forall|i: int|
                0 <= i < map.eras.len() ==> le_value(
                    #[trigger] raw.subrange(56 + 4 * i, 60 + 4 * i),
                ) == map.eras[i]
        }),
{
    let (map, clean) = decode(raw, dev_size, granularity)->Ok_0;
    crate::bytes::lemma_byte_span_values();
    crate::era::lemma_chunks_reach_end(dev_size, granularity);
    assert(raw.take(52) + seq![0u8, 0, 0, 0] + raw.skip(56) =~= unsealed(raw));
    crate::bytes::lemma_le_value_bound(raw.subrange(28, 32));
    crate::bytes::lemma_le_value_bound(raw.subrange(44, 52));
    assert forall|i: int| 0 <= i < map.eras.len() implies le_value(
        #[trigger] raw.subrange(56 + 4 * i, 60 + 4 * i),
    ) == map.eras[i] by {
        crate::bytes::lemma_le_value_bound(raw.subrange(56 + 4 * i, 60 + 4 * i));
    }
}

/// What is wrong with a file that does not load: the first check that it does
/// not pass, with what it found.
pub proof fn refused_files_say_why(raw: Seq<u8>, dev_size: u64, granularity: u64)
    ensures
        ({
            let got = decode(raw, dev_size, granularity);
            &&& got == Err::<(EraMap, bool), LoadError>(LoadError::Truncated) <==> raw.len() < 56
            &&& got matches Err(LoadError::UnsupportedVersion { version }) ==> version as nat
                == le_value(raw.subrange(8, 12)) && version != 4
            &&& got matches Err(LoadError::GranularityMismatch { found, requested }) ==> found as nat
                == le_value(raw.subrange(12, 20)) && requested == granularity && found
                != requested
            &&& got matches Err(LoadError::SizeMismatch { found, backing }) ==> found as nat
                == le_value(raw.subrange(20, 28)) && backing == dev_size && found != backing
            &&& got matches Err(LoadError::BadGranularity { granularity: g }) ==> g == granularity
                && !crate::era::valid_granularity(g)
            &&& got == Err::<(EraMap, bool), LoadError>(LoadError::NotMetadata) <==> raw.len()
                >= 56 && raw.subrange(0, 8) != seq![
                0x55u8,
                0x42,
                0x4C,
                0x4B,
                0x45,
                0x52,
                0x41,
                0x31,
            ]
            &&& got == Err::<(EraMap, bool), LoadError>(LoadError::ChecksumMismatch) ==> le_value(
                raw.subrange(52, 56),
            ) != crc_of(raw.take(52) + seq![0u8, 0, 0, 0] + raw.skip(56))
        }),
{
    crate::bytes::lemma_byte_span_values();
    if raw.len() >= 56 {
        assert(raw.take(52) + seq![0u8, 0, 0, 0] + raw.skip(56) =~= unsealed(raw));
        crate::bytes::lemma_le_value_bound(raw.subrange(8, 12));
        crate::bytes::lemma_le_value_bound(raw.subrange(12, 20));
        crate::bytes::lemma_le_value_bound(raw.subrange(20, 28));
    }
}

/// The words for a file that does not load name the file, and what it holds
/// where another value was asked for.
pub proof fn load_errors_in_words(e: LoadError, path: Seq<char>)
    ensures
        e is Truncated ==> load_complaint(e, path) == path + ": truncated metadata file"@,
        e is NotMetadata ==> load_complaint(e, path) == path + ": not a ublkera metadata file"@,
        e matches LoadError::UnsupportedVersion { version } ==> load_complaint(e, path) == path
            + ": unsupported metadata version "@ + decimal(version as nat),
        e matches LoadError::GranularityMismatch { found, requested } ==> load_complaint(e, path)
            == "metadata granularity "@ + decimal(found as nat) + " does not match requested "@
            + decimal(requested as nat) + "; delete "@ + path + " to start fresh"@,
        e matches LoadError::SizeMismatch { found, backing } ==> load_complaint(e, path)
            == "metadata device size "@ + decimal(found as nat)
            + " does not match backing size "@ + decimal(backing as nat) + "; delete "@ + path
            + " to start fresh"@,
        e matches LoadError::BadGranularity { granularity } ==> load_complaint(e, path)
            == "granularity must be a power of two >= 4096 (got "@ + decimal(granularity as nat)
            + ")"@,
        e is ChunkCountMismatch ==> load_complaint(e, path) == "metadata chunk count mismatch"@,
        e is BodyLengthMismatch ==> load_complaint(e, path) == "metadata body length mismatch"@,
{
}

} // verus!
