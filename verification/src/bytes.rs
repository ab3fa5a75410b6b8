//! Little-endian encoding of unsigned integers.

use vstd::prelude::*;

verus! {

/// The `n` low bytes of `v`, least significant first.
pub open spec fn le_bytes(v: nat, n: nat) -> Seq<u8>
    decreases n,
{
    if n == 0 {
        Seq::empty()
    } else {
        seq![(v % 256) as u8] + le_bytes(v / 256, (n - 1) as nat)
    }
}

/// The number that `s` encodes, least significant byte first.
pub open spec fn le_value(s: Seq<u8>) -> nat
    decreases s.len(),
{
    if s.len() == 0 {
        0
    } else {
        s[0] as nat + 256 * le_value(s.skip(1))
    }
}

/// How many values `n` bytes can hold.
pub open spec fn byte_span(n: nat) -> nat
    decreases n,
{
    if n == 0 {
        1
    } else {
        256 * byte_span((n - 1) as nat)
    }
}

pub proof fn lemma_le_bytes_len(v: nat, n: nat)
    ensures
        le_bytes(v, n).len() == n,
    decreases n,
{
    if n > 0 {
        lemma_le_bytes_len(v / 256, (n - 1) as nat);
    }
}

pub proof fn lemma_byte_span_values()
    ensures
        byte_span(4) == 0x1_0000_0000,
        byte_span(8) == 0x1_0000_0000_0000_0000,
{
    reveal_with_fuel(byte_span, 9);
}

pub proof fn lemma_le_value_bound(s: Seq<u8>)
    ensures
        le_value(s) < byte_span(s.len()),
    decreases s.len(),
{
    if s.len() > 0 {
        lemma_le_value_bound(s.skip(1));
    }
}

/// Decoding gives back what was encoded.
pub proof fn lemma_le_roundtrip(v: nat, n: nat)
    requires
        v < byte_span(n),
    ensures
        le_value(le_bytes(v, n)) == v,
    decreases n,
{
    if n > 0 {
        let rest = le_bytes(v / 256, (n - 1) as nat);
        lemma_le_roundtrip(v / 256, (n - 1) as nat);
        assert(le_bytes(v, n).skip(1) =~= rest);
    }
}

/// Append the `n` low bytes of `v`, least significant first.
pub fn put_le(buf: &mut Vec<u8>, v: u64, n: usize)
    ensures
        final(buf)@ == old(buf)@ + le_bytes(v as nat, n as nat),
{
    let ghost start = buf@;
    let mut rest: u64 = v;
    let mut left: usize = n;
    proof {
        assert(start + le_bytes(v as nat, n as nat) =~= buf@ + le_bytes(rest as nat, left as nat));
    }
    while left > 0
        invariant
            start + le_bytes(v as nat, n as nat) == buf@ + le_bytes(rest as nat, left as nat),
        decreases left,
    {
        let ghost before = buf@;
        buf.push((rest % 256) as u8);
        proof {
            let tail = le_bytes((rest / 256) as nat, (left - 1) as nat);
            assert(before + (seq![(rest % 256) as u8] + tail) =~= before.push(
                (rest % 256) as u8,
            ) + tail);
        }
        rest = rest / 256;
        left = left - 1;
    }
    proof {
        assert(buf@ + Seq::<u8>::empty() =~= buf@);
    }
}

/// The number that the `n` bytes at `at` encode.
pub fn get_le(raw: &[u8], at: usize, n: usize) -> (v: u64)
    requires
        n <= 8,
        at + n <= raw@.len(),
    ensures
        v == le_value(raw@.subrange(at as int, at + n)),
        v < byte_span(n as nat),
{
    let total: usize = raw.len();
    let mut v: u64 = 0;
    let mut i: usize = n;
    proof {
        assert(raw@.subrange(at + n, at + n) =~= Seq::<u8>::empty());
    }
    while i > 0
        invariant
            i <= n <= 8,
            total == raw@.len(),
            at + n <= total,
            v == le_value(raw@.subrange(at + i, at + n)),
        decreases i,
    {
        proof {
            let tail = raw@.subrange(at + i, at + n);
            lemma_le_value_bound(tail);
            let longer = raw@.subrange(at + i - 1, at + n);
            assert(longer.skip(1) =~= tail);
            lemma_le_value_bound(longer);
            reveal_with_fuel(byte_span, 9);
        }
        v = raw[at + (i - 1)] as u64 + 256 * v;
        i = i - 1;
    }
    proof {
        lemma_le_value_bound(raw@.subrange(at as int, at + n));
    }
    v
}

/// What the bytes are worth: the first counts once, each further one 256 times
/// as much as the one before.
pub proof fn bytes_count_from_the_low_end(b: u8, rest: Seq<u8>)
    ensures
        le_value(Seq::empty()) == 0,
        le_value(seq![b] + rest) == b + 256 * le_value(rest),
{
    assert((seq![b] + rest).skip(1) =~= rest);
}

/// A number is written with its low byte first.
pub proof fn numbers_are_written_low_byte_first(v: nat, n: nat)
    requires
        n > 0,
    ensures
        le_bytes(v, n).len() == n,
        le_bytes(v, n)[0] == v % 256,
        le_bytes(v, n).skip(1) == le_bytes(v / 256, (n - 1) as nat),
{
    lemma_le_bytes_len(v, n);
    assert(le_bytes(v, n).skip(1) =~= le_bytes(v / 256, (n - 1) as nat));
}

} // verus!
