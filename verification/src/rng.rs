//! splitmix64: a tiny seedable generator. Every random decision of the fault
//! model and of the chaos harness comes from here, so a run follows from its
//! seed.

use vstd::prelude::*;

use crate::bytes::put_le;

verus! {

/// What the state grows by at each draw.
pub const GAMMA: u64 = 0x9E37_79B9_7F4A_7C15;

/// The state after one more draw.
pub open spec fn advance(state: u64) -> u64 {
    state.wrapping_add(GAMMA)
}

/// The state after `n` more draws.
pub open spec fn advance_by(state: u64, n: nat) -> u64
    decreases n,
{
    if n == 0 {
        state
    } else {
        advance(advance_by(state, (n - 1) as nat))
    }
}

/// The number that a draw leaving the generator in `state` returns.
pub open spec fn scramble(state: u64) -> u64 {
    let a = (state ^ (state >> 30)).wrapping_mul(0xBF58_476D_1CE4_E5B9);
    let b = (a ^ (a >> 27)).wrapping_mul(0x94D0_49BB_1331_11EB);
    b ^ (b >> 31)
}

/// The number that draw `n` (from 0) after `state` returns.
pub open spec fn draw(state: u64, n: nat) -> u64 {
    scramble(advance_by(state, n + 1))
}

/// Byte `i` of the stream of little-endian draws that follows `state`.
pub open spec fn stream_byte(state: u64, i: int) -> u8
    recommends
        0 <= i,
{
    crate::bytes::le_bytes(draw(state, (i / 8) as nat) as nat, 8)[i % 8]
}

pub struct Rng(pub u64);

impl Rng {
    pub fn next(&mut self) -> (r: u64)
        ensures
            final(self).0 == advance(old(self).0),
            r == scramble(advance(old(self).0)),
    {
        self.0 = self.0.wrapping_add(GAMMA);
        let s: u64 = self.0;
        let a: u64 = (s ^ (s >> 30)).wrapping_mul(0xBF58_476D_1CE4_E5B9);
        let b: u64 = (a ^ (a >> 27)).wrapping_mul(0x94D0_49BB_1331_11EB);
        b ^ (b >> 31)
    }

    /// A number below `n`.
    pub fn below(&mut self, n: u64) -> (r: u64)
        requires
            n > 0,
        ensures
            final(self).0 == advance(old(self).0),
            r == scramble(advance(old(self).0)) % n,
            r < n,
    {
        self.next() % n
    }

    /// Roll a per-mill probability. A probability of zero draws nothing.
    pub fn hit(&mut self, pm: u32) -> (r: bool)
        ensures
            final(self).0 == state_after_roll(old(self).0, pm),
            r == roll(old(self).0, pm),
    {
        pm > 0 && self.below(1000) < pm as u64
    }

    /// Fill `buf` from the stream of little-endian draws.
    pub fn fill(&mut self, buf: &mut [u8])
        ensures
            final(buf)@ == Seq::new(old(buf)@.len(), |i: int| stream_byte(old(self).0, i)),
            final(self).0 == advance_by(old(self).0, ((old(buf)@.len() + 7) / 8) as nat),
    {
        let ghost start = self.0;
        let len: usize = buf.len();
        let mut pos: usize = 0;
        let mut draws: Ghost<nat> = Ghost(0);
        while pos < len
            invariant
                pos <= len,
                len == buf@.len(),
                pos < len ==> pos == 8 * draws@,
                pos == len ==> draws@ == (len + 7) / 8,
                self.0 == advance_by(start, draws@),
                forall|i: int| 0 <= i < pos ==> buf@[i] == stream_byte(start, i),
            decreases len - pos,
        {
            let word: u64 = self.next();
            let mut piece: Vec<u8> = Vec::new();
            put_le(&mut piece, word, 8);
            proof {
                crate::bytes::lemma_le_bytes_len(word as nat, 8);
                assert(piece@ =~= crate::bytes::le_bytes(word as nat, 8));
                assert(word == draw(start, draws@));
            }
            let n: usize = if len - pos < 8 { len - pos } else { 8 };
            let mut k: usize = 0;
            while k < n
                invariant
                    k <= n <= 8,
                    pos + n <= len,
                    len == buf@.len(),
                    pos == 8 * draws@,
                    piece@ == crate::bytes::le_bytes(word as nat, 8),
                    piece@.len() == 8,
                    word == draw(start, draws@),
                    forall|i: int| 0 <= i < pos + k ==> buf@[i] == stream_byte(start, i),
                decreases n - k,
            {
                buf[pos + k] = piece[k];
                k = k + 1;
            }
            pos = pos + n;
            proof {
                draws@ = draws@ + 1;
            }
        }
        proof {
            assert(buf@ =~= Seq::new(len as nat, |i: int| stream_byte(start, i)));
        }
    }
}

/// The outcome of rolling `pm` per mill in `state`.
pub open spec fn roll(state: u64, pm: u32) -> bool {
    pm > 0 && scramble(advance(state)) % 1000 < pm
}

/// The state that rolling `pm` per mill leaves.
pub open spec fn state_after_roll(state: u64, pm: u32) -> u64 {
    if pm > 0 {
        advance(state)
    } else {
        state
    }
}

/// A probability of 0 per mill never comes up and draws nothing; one of 1000
/// always does.
pub proof fn extreme_rolls(state: u64)
    ensures
        !roll(state, 0),
        state_after_roll(state, 0) == state,
        roll(state, 1000),
{
}

/// A roll comes up exactly when the next draw, taken out of a thousand, falls
/// below the probability; so a larger probability comes up whenever a smaller
/// one does.
pub proof fn rolls_are_draws(state: u64, pm: u32, more: u32)
    ensures
        roll(state, pm) <==> pm > 0 && draw(state, 0) % 1000 < pm,
        roll(state, pm) && pm <= more ==> roll(state, more),
        pm > 0 ==> state_after_roll(state, pm) == advance_by(state, 1),
        pm == 0 ==> state_after_roll(state, pm) == state,
{
    reveal_with_fuel(advance_by, 2);
}

/// Draws are those of splitmix64: the state grows by the golden gamma, and is
/// mixed by two multiplications with a shift before each and one after.
pub proof fn draws_are_those_of_splitmix64(state: u64, a: u64, b: u64)
    requires
        a as int == (state ^ (state >> 30)) * 0xBF58_476D_1CE4_E5B9 % 0x1_0000_0000_0000_0000,
        b as int == (a ^ (a >> 27)) * 0x94D0_49BB_1331_11EB % 0x1_0000_0000_0000_0000,
    ensures
        scramble(state) == b ^ (b >> 31),
        advance(state) as int == (state + 0x9E37_79B9_7F4A_7C15) % 0x1_0000_0000_0000_0000,
{
}

/// Draws follow one another: draw `n` after a state is the first after `n`
/// steps.
pub proof fn draws_follow_one_another(state: u64, n: nat)
    ensures
        draw(state, n) == scramble(advance(advance_by(state, n))),
        advance_by(state, 0) == state,
        advance_by(state, n + 1) == advance(advance_by(state, n)),
{
}

/// The stream is made of the draws, eight bytes each, the low byte first.
pub proof fn the_stream_is_made_of_draws(state: u64, k: nat, j: int)
    requires
        0 <= j < 8,
    ensures
        stream_byte(state, 8 * k + j) == crate::bytes::le_bytes(draw(state, k) as nat, 8)[j],
{
}

} // verus!
