//! A buffer that direct IO accepts.

use vstd::prelude::*;

verus! {

/// A 4096-aligned window of a larger buffer.
pub struct DioBuf {
    pub store: Vec<u8>,
    pub off: usize,
    pub len: usize,
}

/// `[u8]::as_ptr` and `align_offset`: how far into `store` the first address
/// lies that is a multiple of 4096. Where the buffer stands is up to the
/// allocator, so nothing is promised of the number.
#[verifier::external_body]
fn first_aligned(store: &[u8]) -> (off: usize) {
    store.as_ptr().align_offset(4096)
}

impl DioBuf {
    pub open spec fn wf(&self) -> bool {
        self.off + self.len <= self.store.len()
    }

    pub open spec fn content(&self) -> Seq<u8> {
        self.store@.subrange(self.off as int, self.off + self.len)
    }

    /// A buffer of `len` bytes whose first address is a multiple of 4096. The
    /// store is all zeros, with a page to spare for the alignment. How much of
    /// that the alignment takes is up to the address of the store, so whether
    /// the window lies within it is for `fits` to tell.
    pub fn new(len: usize) -> (buf: DioBuf)
        requires
            len + 4096 <= usize::MAX,
        ensures
            buf.len == len,
            buf.store@ == Seq::new((len + 4096) as nat, |i: int| 0u8),
            buf.wf() <==> buf.off <= 4096,
            buf.wf() ==> buf.content() == Seq::new(len as nat, |i: int| 0u8),
    {
        let store: Vec<u8> = vec![0u8; len + 4096];
        let off: usize = first_aligned(&store);
        let buf = DioBuf { store, off, len };
        proof {
            assert(buf.store@ =~= Seq::new((len + 4096) as nat, |i: int| 0u8));
            if buf.wf() {
                assert(buf.content() =~= Seq::new(len as nat, |i: int| 0u8));
            }
        }
        buf
    }

    /// Whether the window lies within the store.
    pub fn fits(&self) -> (yes: bool)
        ensures
            yes == self.wf(),
    {
        let total: usize = self.store.len();
        self.off <= total && self.len <= total - self.off
    }

    pub fn get(&self) -> (data: &[u8])
        requires
            self.wf(),
        ensures
            data@ == self.content(),
    {
        vstd::slice::slice_subrange(&self.store, self.off, self.off + self.len)
    }

    pub fn get_mut(&mut self) -> (data: &mut [u8])
        requires
            old(self).wf(),
        ensures
            data@ == old(self).content(),
            final(self).off == old(self).off,
            final(self).len == old(self).len,
            final(self).store@ == old(self).store@.take(old(self).off as int) + final(data)@ + old(
                self,
            ).store@.skip(old(self).off + old(self).len),
    {
        let off: usize = self.off;
        let len: usize = self.len;
        let whole: &mut [u8] = self.store.as_mut_slice();
        let (_, rest) = whole.split_at_mut(off);
        let (window, _) = rest.split_at_mut(len);
        window
    }
}

/// The content of a buffer is its window, byte by byte.
pub proof fn the_content_is_the_window(buf: DioBuf, i: int)
    requires
        buf.wf(),
        0 <= i < buf.len,
    ensures
        buf.off + buf.len <= buf.store@.len(),
        buf.content().len() == buf.len,
        buf.content()[i] == buf.store@[buf.off + i],
{
}

} // verus!
