//! CRC-32 (IEEE, reflected).

use vstd::prelude::*;

verus! {

/// The reflected generator polynomial.
pub const POLY: u32 = 0xEDB8_8320;

/// One step of the shift register.
pub open spec fn shift(c: u32) -> u32 {
    if c & 1 != 0 {
        POLY ^ (c >> 1)
    } else {
        c >> 1
    }
}

/// `n` steps of the shift register.
pub open spec fn shift_by(c: u32, n: nat) -> u32
    decreases n,
{
    if n == 0 {
        c
    } else {
        shift(shift_by(c, (n - 1) as nat))
    }
}

/// The register after `data` went in, starting from `c`.
pub open spec fn feed(c: u32, data: Seq<u8>) -> u32
    decreases data.len(),
{
    if data.len() == 0 {
        c
    } else {
        shift_by(feed(c, data.drop_last()) ^ data.last() as u32, 8)
    }
}

/// The CRC-32 of `data`.
pub open spec fn crc_of(data: Seq<u8>) -> u32 {
    !feed(0xFFFF_FFFF, data)
}

/// All of `parts` one after the other.
pub open spec fn concat(parts: Seq<&[u8]>) -> Seq<u8>
    decreases parts.len(),
{
    if parts.len() == 0 {
        Seq::empty()
    } else {
        concat(parts.drop_last()) + parts.last()@
    }
}

proof fn lemma_shift_linear(a: u32, b: u32)
    ensures
        shift(a ^ b) == shift(a) ^ shift(b),
{
    assert(shift(a ^ b) == shift(a) ^ shift(b)) by (bit_vector);
}

proof fn lemma_shift_by_linear(a: u32, b: u32, n: nat)
    ensures
        shift_by(a ^ b, n) == shift_by(a, n) ^ shift_by(b, n),
    decreases n,
{
    if n > 0 {
        lemma_shift_by_linear(a, b, (n - 1) as nat);
        lemma_shift_linear(shift_by(a, (n - 1) as nat), shift_by(b, (n - 1) as nat));
    }
}

proof fn lemma_shift_injective(a: u32, b: u32)
    requires
        shift(a) == shift(b),
    ensures
        a == b,
{
    assert(shift(a) == shift(b) ==> a == b) by (bit_vector);
}

proof fn lemma_shift_by_injective(a: u32, b: u32, n: nat)
    requires
        shift_by(a, n) == shift_by(b, n),
    ensures
        a == b,
    decreases n,
{
    if n > 0 {
        lemma_shift_injective(shift_by(a, (n - 1) as nat), shift_by(b, (n - 1) as nat));
        lemma_shift_by_injective(a, b, (n - 1) as nat);
    }
}

/// Eight steps on a register whose low byte is clear only move it down.
proof fn lemma_shift_clear(y: u32)
    requires
        y & 0xFF == 0,
    ensures
        shift_by(y, 8) == y >> 8,
{
    assert(shift(y) == y >> 1 && shift(y >> 1) == y >> 2 && shift(y >> 2) == y >> 3 && shift(y >> 3)
        == y >> 4 && shift(y >> 4) == y >> 5 && shift(y >> 5) == y >> 6 && shift(y >> 6) == y >> 7
        && shift(y >> 7) == y >> 8) by (bit_vector)
        requires
            y & 0xFF == 0,
    ;
    reveal_with_fuel(shift_by, 9);
}

/// The table lookup does the work of eight steps.
proof fn lemma_table_step(x: u32)
    ensures
        shift_by(x, 8) == shift_by(x & 0xFF, 8) ^ (x >> 8),
{
    let low = x & 0xFF;
    let high = x & 0xFFFF_FF00;
    assert(low ^ high == x && high & 0xFF == 0 && high >> 8 == x >> 8) by (bit_vector)
        requires
            low == x & 0xFF,
            high == x & 0xFFFF_FF00,
    ;
    lemma_shift_by_linear(low, high, 8);
    lemma_shift_clear(high);
}

proof fn lemma_feed_injective(a: u32, b: u32, data: Seq<u8>)
    requires
        feed(a, data) == feed(b, data),
    ensures
        a == b,
    decreases data.len(),
{
    if data.len() > 0 {
        let p = feed(a, data.drop_last());
        let q = feed(b, data.drop_last());
        let last = data.last() as u32;
        lemma_shift_by_injective(p ^ last, q ^ last, 8);
        assert(p ^ last == q ^ last ==> p == q) by (bit_vector);
        lemma_feed_injective(a, b, data.drop_last());
    }
}

proof fn lemma_feed_concat(c: u32, a: Seq<u8>, b: Seq<u8>)
    ensures
        feed(c, a + b) == feed(feed(c, a), b),
    decreases b.len(),
{
    if b.len() == 0 {
        assert(a + b =~= a);
    } else {
        lemma_feed_concat(c, a, b.drop_last());
        assert((a + b).drop_last() =~= a + b.drop_last());
        assert((a + b).last() == b.last());
    }
}

/// Changing a single byte changes the checksum, whichever byte it is.
pub proof fn single_byte_change_is_seen(data: Seq<u8>, i: int, b: u8)
    requires
        0 <= i < data.len(),
        b != data[i],
    ensures
        crc_of(data.update(i, b)) != crc_of(data),
{
    let head = data.subrange(0, i);
    let tail = data.subrange(i + 1, data.len() as int);
    let changed = data.update(i, b);
    assert(data =~= head.push(data[i]) + tail);
    assert(changed =~= head.push(b) + tail);
    let init = 0xFFFF_FFFFu32;
    lemma_feed_concat(init, head.push(data[i]), tail);
    lemma_feed_concat(init, head.push(b), tail);
    assert(head.push(data[i]).drop_last() =~= head);
    assert(head.push(b).drop_last() =~= head);
    let x = feed(init, changed);
    let y = feed(init, data);
    assert(!x == !y ==> x == y) by (bit_vector);
    if x == y {
        lemma_feed_injective(feed(init, head.push(b)), feed(init, head.push(data[i])), tail);
        let c = feed(init, head);
        let u = b as u32;
        let v = data[i] as u32;
        lemma_shift_by_injective(c ^ u, c ^ v, 8);
        assert(c ^ u == c ^ v ==> u == v) by (bit_vector);
    }
}

/// Eight steps for each value of a byte.
fn make_table() -> (table: Vec<u32>)
    ensures
        table@.len() == 256,
        forall|i: int| 0 <= i < 256 ==> table@[i] == shift_by(i as u32, 8),
{
    let mut table: Vec<u32> = Vec::new();
    let mut i: u32 = 0;
    while i < 256
        invariant
            i <= 256,
            table@.len() == i,
            forall|k: int| 0 <= k < i ==> table@[k] == shift_by(k as u32, 8),
        decreases 256 - i,
    {
        let mut c: u32 = i;
        let mut k: u32 = 0;
        while k < 8
            invariant
                k <= 8,
                c == shift_by(i, k as nat),
            decreases 8 - k,
        {
            c = if c & 1 != 0 {
                POLY ^ (c >> 1)
            } else {
                c >> 1
            };
            k = k + 1;
        }
        table.push(c);
        i = i + 1;
    }
    table
}

/// CRC-32 over the concatenation of `parts`; table-driven.
pub fn crc32(parts: &[&[u8]]) -> (crc: u32)
    ensures
        crc == crc_of(concat(parts@)),
{
    let table = make_table();
    let mut crc: u32 = 0xFFFF_FFFF;
    let mut p: usize = 0;
    proof {
        assert(parts@.take(0) =~= Seq::empty());
    }
    while p < parts.len()
        invariant
            p <= parts@.len(),
            table@.len() == 256,
            forall|i: int| 0 <= i < 256 ==> table@[i] == shift_by(i as u32, 8),
            crc == feed(0xFFFF_FFFF, concat(parts@.take(p as int))),
        decreases parts.len() - p,
    {
        let part: &[u8] = parts[p];
        let ghost before = concat(parts@.take(p as int));
        let mut i: usize = 0;
        proof {
            assert(part@.take(0) =~= Seq::empty());
            assert(before + part@.take(0) =~= before);
        }
        while i < part.len()
            invariant
                i <= part@.len(),
                table@.len() == 256,
                forall|k: int| 0 <= k < 256 ==> table@[k] == shift_by(k as u32, 8),
                crc == feed(0xFFFF_FFFF, before + part@.take(i as int)),
            decreases part.len() - i,
        {
            let x: u32 = crc ^ part[i] as u32;
            proof {
                let fed = before + part@.take(i as int);
                let next = before + part@.take(i + 1);
                assert(next.drop_last() =~= fed);
                assert(next.last() == part@[i as int]);
                lemma_table_step(x);
                assert(x & 0xFF < 256) by (bit_vector);
                let b = part@[i as int] as u32;
                assert((crc ^ b) >> 8 == crc >> 8) by (bit_vector)
                    requires
                        b < 256,
                ;
            }
            crc = table[(x & 0xFF) as usize] ^ (crc >> 8);
            i = i + 1;
        }
        proof {
            assert(part@.take(part@.len() as int) =~= part@);
            assert(parts@.take(p + 1).drop_last() =~= parts@.take(p as int));
        }
        p = p + 1;
    }
    proof {
        assert(parts@.take(parts@.len() as int) =~= parts@);
    }
    !crc
}

/// One step of the register takes its lowest bit out; the polynomial goes in
/// where that bit was set.
pub proof fn a_step_divides_by_the_polynomial(c: u32)
    ensures
        c % 2 == 0 ==> shift(c) == c / 2,
        c % 2 == 1 ==> shift(c) == 0xEDB8_8320u32 ^ (c / 2),
{
    assert((c & 1 != 0 <==> c % 2 == 1) && c >> 1 == c / 2) by (bit_vector);
}

/// A checksum is that of CRC-32: it is 0 for nothing, and one more byte goes
/// into the low end of the complement, which then takes eight steps.
pub proof fn checksums_grow_byte_by_byte(data: Seq<u8>, b: u8)
    ensures
        crc_of(Seq::empty()) == 0,
        ({
            let x = !crc_of(data) ^ b as u32;
            crc_of(data.push(b)) == !shift(
                shift(shift(shift(shift(shift(shift(shift(x))))))),
            )
        }),
{
    let c = feed(0xFFFF_FFFF, data);
    assert(!(!c) == c && !0xFFFF_FFFFu32 == 0) by (bit_vector);
    assert(data.push(b).drop_last() =~= data);
    reveal_with_fuel(shift_by, 9);
}

/// The checksum of several parts is that of all of them in a row.
pub proof fn parts_count_in_a_row(parts: Seq<&[u8]>, last: &[u8])
    ensures
        concat(Seq::empty()).len() == 0,
        concat(parts.push(last)) == concat(parts) + last@,
{
    assert(parts.push(last).drop_last() =~= parts);
}

} // verus!
