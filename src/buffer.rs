use vstd::prelude::*;
use vstd::slice::slice_subrange;

verus! {

/// A token for bytes staged in a `DataBuffer`: where they start and how many
/// there are. A token is resolved only against the buffer that issued it, and
/// only until that buffer is next cleared.
#[derive(Clone, Copy, Debug, PartialEq, Eq, Structural)]
pub struct BufferPtr {
    pub offset: usize,
    pub len: usize,
}

impl BufferPtr {
    /// The bytes the token covers lie within `n` bytes.
    pub open spec fn within(self, n: nat) -> bool {
        self.offset + self.len <= n
    }
}

/// An append-only staging arena for payload bytes. Clearing it empties it and
/// keeps what it has allocated.
pub struct DataBuffer {
    bytes: Vec<u8>,
}

impl View for DataBuffer {
    type V = Seq<u8>;

    closed spec fn view(&self) -> Seq<u8> {
        self.bytes@
    }
}

impl DataBuffer {
    pub fn with_capacity(capacity: usize) -> (r: DataBuffer)
        ensures
            r@ == Seq::<u8>::empty(),
    {
        DataBuffer { bytes: Vec::with_capacity(capacity) }
    }

    pub fn len(&self) -> (r: usize)
        ensures
            r == self@.len(),
    {
        self.bytes.len()
    }

    /// Copies `data` to the end of the buffer and returns its token.
    pub fn extend_from_slice(&mut self, data: &[u8]) -> (r: BufferPtr)
        ensures
            final(self)@ == old(self)@ + data@,
            r.offset == old(self)@.len(),
            r.len == data@.len(),
            r.within(final(self)@.len()),
    {
        let offset = self.bytes.len();
        let mut i: usize = 0;
        while i < data.len()
            invariant
                0 <= i <= data@.len(),
                offset == old(self)@.len(),
                self.bytes@ == old(self)@ + data@.subrange(0, i as int),
            decreases data@.len() - i,
        {
            self.bytes.push(data[i]);
            proof {
                assert(data@.subrange(0, i as int + 1) =~= data@.subrange(0, i as int).push(data@[i as int]));
            }
            i += 1;
        }
        proof {
            assert(data@.subrange(0, i as int) =~= data@);
        }
        BufferPtr { offset, len: data.len() }
    }

    /// The bytes that a token of this buffer covers.
    pub fn as_slice(&self, ptr: BufferPtr) -> (r: &[u8])
        requires
            ptr.within(self@.len()),
        ensures
            r@ == self@.subrange(ptr.offset as int, ptr.offset + ptr.len),
    {
        let n = self.bytes.len();
        assert(ptr.offset + ptr.len <= n);
        slice_subrange(self.bytes.as_slice(), ptr.offset, ptr.offset + ptr.len)
    }

    /// Empties the buffer; every token it issued is void from now on.
    pub fn clear(&mut self)
        ensures
            final(self)@ == Seq::<u8>::empty(),
    {
        self.bytes.clear();
    }
}

} // verus!
