use vstd::prelude::*;
use vstd::slice::slice_subrange;

verus! {

/// Hands out a byte buffer as a growing window: bytes are made available
/// `chunk` at a time, and consumed bytes are never presented again.
pub struct ByteWindow<'a> {
    data: &'a [u8],
    consumed: usize,
    available: usize,
    chunk: usize,
}

impl<'a> ByteWindow<'a> {
    pub closed spec fn spec_data(&self) -> Seq<u8> {
        self.data@
    }

    /// Bytes consumed so far.
    pub closed spec fn spec_consumed(&self) -> int {
        self.consumed as int
    }

    /// Bytes made available so far.
    pub closed spec fn spec_available(&self) -> int {
        self.available as int
    }

    pub closed spec fn spec_chunk(&self) -> int {
        self.chunk as int
    }

    pub open spec fn wf(&self) -> bool {
        &&& 0 <= self.spec_consumed() <= self.spec_available() <= self.spec_data().len()
        &&& self.spec_chunk() > 0
    }

    /// The bytes available and not yet consumed.
    pub open spec fn spec_window(&self) -> Seq<u8> {
        self.spec_data().subrange(self.spec_consumed(), self.spec_available())
    }

    /// A window over `data` that grows by `chunk` bytes at a time.
    pub fn new(data: &'a [u8], chunk: usize) -> (r: ByteWindow<'a>)
        requires
            chunk > 0,
        ensures
            r.wf(),
            r.spec_data() == data@,
            r.spec_consumed() == 0,
            r.spec_chunk() == chunk,
            r.spec_available() == (if chunk < data@.len() { chunk as int } else { data@.len() as int }),
    {
        let available = if chunk < data.len() { chunk } else { data.len() };
        ByteWindow { data, consumed: 0, available, chunk }
    }

    pub fn window(&self) -> (r: &'a [u8])
        requires
            self.wf(),
        ensures
            r@ == self.spec_window(),
    {
        slice_subrange(self.data, self.consumed, self.available)
    }

    /// True when every byte of the buffer has been made available.
    pub fn at_end(&self) -> (r: bool)
        requires
            self.wf(),
        ensures
            r == (self.spec_available() == self.spec_data().len()),
    {
        self.available == self.data.len()
    }

    /// Drops the first `n` bytes of the window.
    pub fn consume(&mut self, n: usize)
        requires
            old(self).wf(),
            n <= old(self).spec_window().len(),
        ensures
            final(self).wf(),
            final(self).spec_data() == old(self).spec_data(),
            final(self).spec_chunk() == old(self).spec_chunk(),
            final(self).spec_available() == old(self).spec_available(),
            final(self).spec_consumed() == old(self).spec_consumed() + n,
    {
        self.consumed = self.consumed + n;
    }

    /// Makes up to `chunk` more bytes available; false when none were left.
    pub fn refill(&mut self) -> (r: bool)
        requires
            old(self).wf(),
        ensures
            final(self).wf(),
            final(self).spec_data() == old(self).spec_data(),
            final(self).spec_chunk() == old(self).spec_chunk(),
            final(self).spec_consumed() == old(self).spec_consumed(),
            r == (old(self).spec_available() < old(self).spec_data().len()),
            final(self).spec_available() == (if old(self).spec_available() + old(self).spec_chunk() < old(self).spec_data().len() {
                old(self).spec_available() + old(self).spec_chunk()
            } else {
                old(self).spec_data().len() as int
            }),
    {
        let left = self.data.len() - self.available;
        if left == 0 {
            return false;
        }
        self.available = if self.chunk < left { self.available + self.chunk } else { self.data.len() };
        true
    }
}

} // verus!
