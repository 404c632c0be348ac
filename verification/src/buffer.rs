//! Device buffer model.
//!
//! A [`Buffer`] stands for one GPU-resident buffer: the bytes the device
//! copy holds and the usage the buffer was created for.  A host realises
//! each operation with its GPU API; the model records exactly what the
//! device copy holds after each one.

use vstd::prelude::*;

verus! {

/// Usage a buffer is created for.
#[derive(Copy, Clone, PartialEq, Eq, Structural, Debug)]
pub enum BufferType {
    Vertex,
    Index,
    Instance,
    Uniform,
    Storage,
}

/// Conversion of a payload to the byte image stored in a buffer.
///
/// Implemented here for plain byte payloads; hosts implement it for their
/// own GPU-ready types.
pub trait AsBytes {
    /// The byte image of the payload.
    spec fn bytes_spec(&self) -> Seq<u8>;

    /// Returns the byte image of the payload.
    fn as_bytes(&self) -> (r: &[u8])
        ensures
            r@ == self.bytes_spec(),
    ;
}

impl AsBytes for Vec<u8> {
    open spec fn bytes_spec(&self) -> Seq<u8> {
        self@
    }

    fn as_bytes(&self) -> (r: &[u8])
        ensures
            r@ == self.bytes_spec(),
    {
        self.as_slice()
    }
}

/// One device buffer: its byte contents and its usage.  The size is fixed
/// at creation, as a GPU buffer's allocation is.
pub struct Buffer {
    contents: Vec<u8>,
    buffer_type: BufferType,
}

impl Buffer {
    /// The bytes the device copy holds.
    pub closed spec fn contents_spec(&self) -> Seq<u8> {
        self.contents@
    }

    /// The usage the buffer was created for.
    pub closed spec fn type_spec(&self) -> BufferType {
        self.buffer_type
    }

    /// Size of the buffer in bytes, fixed at creation.
    pub open spec fn size_spec(&self) -> nat {
        self.contents_spec().len()
    }

    /// Creates a buffer holding the given bytes.
    pub fn create_buffer_from_bytes(data: &[u8], buffer_type: BufferType) -> (b: Buffer)
        ensures
            b.contents_spec() == data@,
            b.type_spec() == buffer_type,
    {
        Buffer { contents: vstd::slice::slice_to_vec(data), buffer_type }
    }

    /// Creates a buffer holding a payload's byte image.
    pub fn create_buffer_from_type<T: AsBytes>(data: &T, buffer_type: BufferType) -> (b: Buffer)
        ensures
            b.contents_spec() == data.bytes_spec(),
            b.type_spec() == buffer_type,
    {
        Buffer::create_buffer_from_bytes(data.as_bytes(), buffer_type)
    }

    /// Overwrites the buffer from its start.  The data must fit: a device
    /// rejects a write past the end of a buffer.
    pub fn update(&mut self, data: &[u8])
        requires
            data@.len() <= old(self).size_spec(),
        ensures
            final(self).contents_spec() == data@ + old(self).contents_spec().skip(
                data@.len() as int,
            ),
            final(self).type_spec() == old(self).type_spec(),
            final(self).size_spec() == old(self).size_spec(),
    {
        self.write_at(0, data);
        proof {
            assert(self.contents@ =~= data@ + old(self).contents@.skip(data@.len() as int));
        }
    }

    /// Overwrites the buffer from `offset` on.
    pub fn write_at(&mut self, offset: usize, data: &[u8])
        requires
            offset + data@.len() <= old(self).size_spec(),
        ensures
            final(self).contents_spec() == old(self).contents_spec().take(offset as int) + data@
                + old(self).contents_spec().skip(offset + data@.len()),
            final(self).type_spec() == old(self).type_spec(),
            final(self).size_spec() == old(self).size_spec(),
    {
        let total = self.contents.len();
        let mut i: usize = 0;
        while i < data.len()
            invariant
                i <= data@.len(),
                offset + data@.len() <= self.size_spec(),
                self.contents@.len() == total,
                self.buffer_type == old(self).buffer_type,
                self.contents@.len() == old(self).contents@.len(),
                forall|j: int|
                    0 <= j < self.contents@.len() && !(offset <= j < offset + i)
                        ==> self.contents@[j] == old(self).contents@[j],
                forall|j: int|
                    offset <= j < offset + i ==> self.contents@[j] == data@[j - offset],
            decreases data@.len() - i,
        {
            self.contents[offset + i] = data[i];
            i = i + 1;
        }
        proof {
            assert(self.contents@ =~= old(self).contents@.take(offset as int) + data@ + old(
                self,
            ).contents@.skip(offset + data@.len()));
        }
    }

    /// Copies this buffer's size worth of bytes from the start of another
    /// buffer, which must be at least as large.
    pub fn copy_buffer(&mut self, source: &Buffer)
        requires
            source.size_spec() >= old(self).size_spec(),
        ensures
            final(self).contents_spec() == source.contents_spec().take(
                old(self).size_spec() as int,
            ),
            final(self).type_spec() == old(self).type_spec(),
            final(self).size_spec() == old(self).size_spec(),
    {
        let n = self.contents.len();
        let mut i: usize = 0;
        while i < n
            invariant
                i <= n,
                n == self.contents@.len(),
                n <= source.contents@.len(),
                self.buffer_type == old(self).buffer_type,
                forall|j: int| 0 <= j < i ==> self.contents@[j] == source.contents@[j],
            decreases n - i,
        {
            self.contents[i] = source.contents[i];
            i = i + 1;
        }
        proof {
            assert(self.contents@ =~= source.contents@.take(old(self).size_spec() as int));
        }
    }

    /// Size of the buffer in bytes.
    pub fn get_size(&self) -> (n: usize)
        ensures
            n == self.size_spec(),
    {
        self.contents.len()
    }

    /// Borrows the bytes the device copy holds.
    pub fn get_buffer(&self) -> (r: &Vec<u8>)
        ensures
            r@ == self.contents_spec(),
    {
        &self.contents
    }
}

} // verus!
