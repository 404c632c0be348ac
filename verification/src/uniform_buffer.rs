//! Dirty-tracked uniform payloads and their device copies.
//!
//! A [`UniformBuffer`] wraps a byte-serialised payload in an
//! [`ObservableData`] and models the GPU buffer backing it.  Replacing the
//! payload marks it dirty but touches nothing on the device; the per-frame
//! sync uploads a dirty payload at most once and clears the flag.

use vstd::prelude::*;

use crate::observable::ObservableData;

verus! {

/// A byte-serialisable payload, its dirty flag, and the bytes its device
/// buffer holds.
pub struct UniformBuffer {
    data: ObservableData<Vec<u8>>,
    gpu: Vec<u8>,
}

/// How [`UniformBuffer::set_data`] relates the state before to the state
/// after: the payload is replaced and marked dirty, the device copy is
/// untouched.
pub open spec fn uniform_set(pre: UniformBuffer, bytes: Seq<u8>, post: UniformBuffer) -> bool {
    &&& post.data_spec() == bytes
    &&& post.dirty_spec()
    &&& post.gpu_spec() == pre.gpu_spec()
}

/// How [`UniformBuffer::update`] relates the state before to the state
/// after: a dirty payload is uploaded and the flag cleared; a clean one is
/// left alone, device copy included.
pub open spec fn uniform_sync(pre: UniformBuffer, post: UniformBuffer) -> bool {
    &&& post.data_spec() == pre.data_spec()
    &&& !post.dirty_spec()
    &&& post.gpu_spec() == if pre.dirty_spec() {
        pre.data_spec()
    } else {
        pre.gpu_spec()
    }
}

impl UniformBuffer {
    /// The current payload bytes.
    pub closed spec fn data_spec(&self) -> Seq<u8> {
        self.data.data_spec()@
    }

    /// Whether the payload has changed since the last upload.
    pub closed spec fn dirty_spec(&self) -> bool {
        self.data.dirty_spec()
    }

    /// The bytes the device buffer holds.
    pub closed spec fn gpu_spec(&self) -> Seq<u8> {
        self.gpu@
    }

    /// Creates a uniform buffer: the initial payload is uploaded at creation
    /// and the buffer starts clean.
    pub fn new(initial_data: Vec<u8>) -> (ub: UniformBuffer)
        ensures
            ub.data_spec() == initial_data@,
            ub.gpu_spec() == initial_data@,
            !ub.dirty_spec(),
    {
        let gpu = clone_bytes(&initial_data);
        UniformBuffer { data: ObservableData::new(initial_data), gpu }
    }

    /// Replaces the payload and marks it dirty; the device copy is left as
    /// it was.
    pub fn set_data(&mut self, new_data: Vec<u8>)
        ensures
            uniform_set(*old(self), new_data@, *final(self)),
    {
        self.data.set(new_data);
    }

    /// Per-frame sync: uploads the payload if it is dirty, then clears the
    /// flag; does nothing to a clean buffer.
    pub fn update(&mut self)
        ensures
            uniform_sync(*old(self), *final(self)),
    {
        if self.data.is_dirty() {
            self.gpu = clone_bytes(self.data.get());
            self.data.clear_dirty();
        }
    }

    /// Borrows the current payload bytes.
    pub fn get_data(&self) -> (r: &Vec<u8>)
        ensures
            r@ == self.data_spec(),
    {
        self.data.get()
    }

    /// Borrows the bytes the device buffer holds.
    pub fn get_buffer(&self) -> (r: &Vec<u8>)
        ensures
            r@ == self.gpu_spec(),
    {
        &self.gpu
    }

    /// Whether the payload has changed since the last upload.
    pub fn is_dirty(&self) -> (b: bool)
        ensures
            b == self.dirty_spec(),
    {
        self.data.is_dirty()
    }
}

/// Law: replacing a payload and then syncing leaves the device buffer
/// holding exactly the byte representation of the new payload, while
/// omitting the sync leaves the device buffer unchanged from its last
/// upload.
pub proof fn lemma_upload_discipline(
    ub0: UniformBuffer,
    bytes: Seq<u8>,
    ub1: UniformBuffer,
    ub2: UniformBuffer,
)
    requires
        uniform_set(ub0, bytes, ub1),
        uniform_sync(ub1, ub2),
    ensures
        ub1.gpu_spec() == ub0.gpu_spec(),
        ub2.gpu_spec() == bytes,
        !ub2.dirty_spec(),
{
}

fn clone_bytes(v: &Vec<u8>) -> (r: Vec<u8>)
    ensures
        r@ == v@,
{
    let mut out: Vec<u8> = Vec::new();
    let mut i: usize = 0;
    while i < v.len()
        invariant
            i <= v@.len(),
            out@ == v@.take(i as int),
        decreases v@.len() - i,
    {
        out.push(v[i]);
        proof {
            assert(out@ =~= v@.take(i + 1));
        }
        i = i + 1;
    }
    proof {
        assert(v@.take(v@.len() as int) =~= v@);
    }
    out
}

} // verus!
