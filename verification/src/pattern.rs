//! Deterministic content for scenario writes and expectations.

use vstd::prelude::*;
use vstd::utf8::encode_utf8;

use crate::rng::{stream_byte, Rng};

verus! {

/// The FNV-1a hash of `bytes`.
pub open spec fn fnv(bytes: Seq<u8>) -> u64
    decreases bytes.len(),
{
    if bytes.len() == 0 {
        0xcbf2_9ce4_8422_2325
    } else {
        (fnv(bytes.drop_last()) ^ bytes.last() as u64).wrapping_mul(0x1000_0000_01b3)
    }
}

/// Byte `i` of the 4096-byte block number `b`, for the pattern `name`.
pub open spec fn block_byte(name: Seq<char>, b: u64, i: int) -> u8 {
    if name == "zero"@ {
        0
    } else {
        stream_byte(fnv(encode_utf8(name)) ^ b, i)
    }
}

/// What byte `x` of a device holds under the pattern `name`.
pub open spec fn pattern_byte(name: Seq<char>, x: int) -> u8 {
    block_byte(name, (x / 4096) as u64, x % 4096)
}

/// The FNV-1a hash of a name.
fn hash_name(name: &str) -> (h: u64)
    ensures
        h == fnv(encode_utf8(name@)),
{
    let bytes: &[u8] = name.as_bytes();
    let mut h: u64 = 0xcbf2_9ce4_8422_2325;
    let mut i: usize = 0;
    proof {
        assert(bytes@.take(0) =~= Seq::empty());
    }
    while i < bytes.len()
        invariant
            i <= bytes@.len(),
            h == fnv(bytes@.take(i as int)),
        decreases bytes.len() - i,
    {
        proof {
            assert(bytes@.take(i + 1).drop_last() =~= bytes@.take(i as int));
        }
        h = (h ^ bytes[i] as u64).wrapping_mul(0x1000_0000_01b3);
        i = i + 1;
    }
    proof {
        assert(bytes@.take(bytes@.len() as int) =~= bytes@);
    }
    h
}

/// Deterministic pattern bytes, anchored to the *device offset*: byte X of
/// the device always holds the same value for a given pattern name, no
/// matter how the writes and reads are split. So
/// `expect off=64K len=192K pattern=p` can check a subrange of an earlier
/// `write off=0 len=256K pattern=p`. "zero" is all zeros. The anchoring holds
/// for a `dev_off` that is 4K-aligned.
pub fn fill_pattern(name: &str, dev_off: u64, buf: &mut [u8])
    ensures
        final(buf)@ == Seq::new(
            old(buf)@.len(),
            |i: int|
                block_byte(name@, (dev_off as int / 4096 + i / 4096) as u64, i % 4096),
        ),
        dev_off % 4096 == 0 && dev_off + old(buf)@.len() <= u64::MAX ==> final(buf)@ == Seq::new(
            old(buf)@.len(),
            |i: int| pattern_byte(name@, dev_off + i),
        ),
{
    let len: usize = buf.len();
    let zero: bool = crate::text::same(name, "zero");
    let h: u64 = hash_name(name);
    let first: u64 = dev_off / 4096;
    let mut b: u64 = 0;
    let mut pos: usize = 0;
    while pos < len
        invariant
            pos <= len == buf@.len(),
            first == dev_off / 4096,
            pos < len ==> pos == 4096 * b,
            b <= len,
            b <= pos,
            zero == (name@ == "zero"@),
            h == fnv(encode_utf8(name@)),
            forall|i: int|
                0 <= i < pos ==> buf@[i] == block_byte(
                    name@,
                    (first + i / 4096) as u64,
                    i % 4096,
                ),
        decreases len - pos,
    {
        let n: usize = if len - pos < 4096 {
            len - pos
        } else {
            4096
        };
        let mut piece: Vec<u8> = vec![0u8; n];
        let number: u64 = first + b;
        if !zero {
            let mut rng = Rng(h ^ number);
            rng.fill(piece.as_mut_slice());
        }
        let mut k: usize = 0;
        while k < n
            invariant
                k <= n <= 4096,
                pos + n <= len == buf@.len(),
                pos == 4096 * b,
                number == first + b,
                piece@.len() == n,
                forall|i: int| 0 <= i < n ==> piece@[i] == block_byte(name@, number, i),
                forall|i: int|
                    0 <= i < pos + k ==> buf@[i] == block_byte(
                        name@,
                        (first + i / 4096) as u64,
                        i % 4096,
                    ),
            decreases n - k,
        {
            proof {
                assert((pos + k) as int / 4096 == b && (pos + k) as int % 4096 == k);
            }
            buf[pos + k] = piece[k];
            k = k + 1;
        }
        pos = pos + n;
        b = b + 1;
    }
    proof {
        assert(buf@ =~= Seq::new(
            len as nat,
            |i: int| block_byte(name@, (dev_off as int / 4096 + i / 4096) as u64, i % 4096),
        ));
        if dev_off % 4096 == 0 && dev_off + len <= u64::MAX {
            assert forall|i: int| 0 <= i < len implies buf@[i] == pattern_byte(
                name@,
                dev_off + i,
            ) by {
                assert((dev_off + i) / 4096 == dev_off as int / 4096 + i / 4096);
                assert((dev_off + i) % 4096 == i % 4096);
            }
            assert(buf@ =~= Seq::new(len as nat, |i: int| pattern_byte(name@, dev_off + i)));
        }
    }
}

/// The hash of a name is FNV-1a: each byte goes in by exclusive or, and the
/// prime multiplies the result.
pub proof fn names_are_hashed_by_fnv(bytes: Seq<u8>, b: u8)
    ensures
        fnv(Seq::empty()) == 0xcbf2_9ce4_8422_2325,
        fnv(bytes.push(b)) as int == (fnv(bytes) ^ b as u64) * 0x1000_0000_01b3
            % 0x1_0000_0000_0000_0000,
{
    assert(bytes.push(b).drop_last() =~= bytes);
}

/// A byte of a pattern follows from the name, the block of 4096 bytes and the
/// place in it: each block is a stream of its own. The pattern `zero` is all
/// zeros.
pub proof fn patterns_are_anchored(name: Seq<char>, b: u64, i: int)
    requires
        0 <= i < 4096,
    ensures
        pattern_byte(name, b * 4096 + i) == if name == "zero"@ {
            0
        } else {
            stream_byte(fnv(encode_utf8(name)) ^ b, i)
        },
{
}

} // verus!
