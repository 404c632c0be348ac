//! Reference-counted, identity-bearing handles for managed resources.
//!
//! Every resource the manager owns is named by a [`ResourceHandle`].  A
//! handle identifies one allocation in a [`HandleArena`]: the arena keeps one
//! control block ([`ResourceHandleRaw`]) per allocation, holding a random
//! 64-bit uuid for diagnostics and the number of live clones.  Handles are
//! equal exactly when they name the same allocation.  Cloning a handle
//! increments the count, dropping one decrements it, and the allocation is
//! freed exactly when the count reaches zero; a freed slot is never reused.

use vstd::prelude::*;

verus! {

/// Category tag of a managed resource.  Informational: routing is by which
/// per-category registry a handle is looked up in, not by this tag.
#[derive(Copy, Clone, PartialEq, Eq, Structural, Hash, Debug)]
pub enum ResourceType {
    Untyped,
    Mesh,
    Texture,
    Material,
    Pipeline,
    Shader,
    Model,
}

/// Control block of one handle allocation: a diagnostic uuid, the number of
/// live clones, and whether the allocation has been freed.
#[derive(Copy, Clone, PartialEq, Eq, Structural, Debug)]
pub struct ResourceHandleRaw {
    /// Random 64-bit identifier, for diagnostics and structural hashing.
    pub uuid: u64,
    /// Number of live handle clones of this allocation.
    pub rc: usize,
    /// True once the reference count has reached zero.
    pub freed: bool,
}

/// An opaque, reference-counted token identifying a resource.
///
/// Two handles are equal only if they are clones of the same allocation;
/// the uuid is informational and plays no part in identity.
#[derive(PartialEq, Eq, Structural, Hash, Debug)]
pub struct ResourceHandle {
    slot: usize,
    uuid: u64,
    resource_type: ResourceType,
}

impl ResourceHandle {
    /// The allocation this handle names: an index into the arena.
    pub closed spec fn id(&self) -> int {
        self.slot as int
    }

    /// The diagnostic uuid carried by this handle.
    pub closed spec fn uuid_spec(&self) -> u64 {
        self.uuid
    }

    /// The informational category tag.
    pub closed spec fn type_spec(&self) -> ResourceType {
        self.resource_type
    }

    /// Exposes the uuid for diagnostics and structural hashing.
    pub fn get_uuid(&self) -> (r: u64)
        ensures
            r == self.uuid_spec(),
    {
        self.uuid
    }

    /// The informational category tag of the resource.
    pub fn get_type(&self) -> (t: &ResourceType)
        ensures
            *t == self.type_spec(),
    {
        &self.resource_type
    }
}

/// The arena of control blocks behind all handles.  Slots are allocated in
/// order and never reused; a slot whose count has reached zero stays freed.
pub struct HandleArena {
    slots: Vec<ResourceHandleRaw>,
}

/// Relies on rand::random for a fresh `u64` from the thread-local
/// generator's standard distribution; nothing is promised of the value.
#[verifier::external_body]
fn random_u64() -> u64 {
    rand::random()
}

impl HandleArena {
    /// Number of allocations made so far (freed ones included).
    pub closed spec fn len(&self) -> nat {
        self.slots.len() as nat
    }

    /// The control block of allocation `id`.
    pub closed spec fn slot_of(&self, id: int) -> ResourceHandleRaw {
        self.slots[id]
    }

    /// Reference count of allocation `id`.
    pub open spec fn rc_of(&self, id: int) -> nat {
        self.slot_of(id).rc as nat
    }

    /// Whether allocation `id` still has live clones.
    pub open spec fn live(&self, id: int) -> bool {
        self.rc_of(id) > 0
    }

    /// Whether allocation `id` has been freed.
    pub open spec fn freed(&self, id: int) -> bool {
        self.slot_of(id).freed
    }

    /// A handle is valid when it names a live allocation of this arena and
    /// carries that allocation's uuid.
    pub open spec fn valid_handle(&self, h: ResourceHandle) -> bool {
        &&& 0 <= h.id() < self.len()
        &&& h.uuid_spec() == self.slot_of(h.id()).uuid
        &&& self.live(h.id())
    }

    /// The arena's bookkeeping is sound: an allocation is marked freed
    /// exactly when its reference count is zero.
    pub open spec fn wf(&self) -> bool {
        forall|id: int|
            0 <= id < self.len() ==> (#[trigger] self.freed(id) <==> self.rc_of(id) == 0)
    }

    /// Creates an empty arena.
    pub fn new() -> (a: HandleArena)
        ensures
            a.len() == 0,
            a.wf(),
    {
        HandleArena { slots: Vec::new() }
    }

    /// Allocates a fresh control block with reference count 1 and a random
    /// uuid, and returns the first handle to it.
    pub fn new_handle(&mut self, resource_type: ResourceType) -> (h: ResourceHandle)
        requires
            old(self).wf(),
        ensures
            final(self).wf(),
            final(self).len() == old(self).len() + 1,
            h.id() == old(self).len(),
            h.type_spec() == resource_type,
            final(self).valid_handle(h),
            final(self).rc_of(h.id()) == 1,
            !final(self).freed(h.id()),
            h.uuid_spec() == final(self).slot_of(h.id()).uuid,
            forall|id: int|
                0 <= id < old(self).len() ==> final(self).slot_of(id) == old(self).slot_of(id),
            arena_extends(*old(self), *final(self)),
    {
        let uuid = random_u64();
        let slot = self.slots.len();
        self.slots.push(ResourceHandleRaw { uuid, rc: 1, freed: false });
        proof {
            assert forall|id: int| 0 <= id < self.len() implies (#[trigger] self.freed(id)
                <==> self.rc_of(id) == 0) by {
                if id < old(self).len() {
                    assert(self.slot_of(id) == old(self).slot_of(id));
                    assert(old(self).freed(id) <==> old(self).rc_of(id) == 0);
                }
            }
        }
        ResourceHandle { slot, uuid, resource_type }
    }

    /// Clones a handle: increments the allocation's reference count and
    /// returns an equal handle.  Cloning a freed allocation is a
    /// use-after-free, which the precondition rules out: valid handles
    /// always name live allocations.
    pub fn clone_handle(&mut self, h: &ResourceHandle) -> (c: ResourceHandle)
        requires
            old(self).wf(),
            old(self).valid_handle(*h),
            old(self).rc_of(h.id()) < usize::MAX,
        ensures
            final(self).wf(),
            c == *h,
            final(self).len() == old(self).len(),
            final(self).rc_of(h.id()) == old(self).rc_of(h.id()) + 1,
            final(self).slot_of(h.id()).uuid == old(self).slot_of(h.id()).uuid,
            final(self).valid_handle(*h),
            forall|id: int|
                0 <= id < old(self).len() && id != h.id() ==> final(self).slot_of(id) == old(
                    self,
                ).slot_of(id),
            arena_extends(*old(self), *final(self)),
    {
        let mut s = self.slots[h.slot];
        s.rc = s.rc + 1;
        self.slots[h.slot] = s;
        proof {
            assert forall|id: int| 0 <= id < self.len() implies (#[trigger] self.freed(id)
                <==> self.rc_of(id) == 0) by {
                assert(old(self).freed(id) <==> old(self).rc_of(id) == 0);
                if id != h.id() {
                    assert(self.slot_of(id) == old(self).slot_of(id));
                }
            }
        }
        ResourceHandle { slot: h.slot, uuid: h.uuid, resource_type: h.resource_type }
    }

    /// Drops a handle: decrements the allocation's reference count, and
    /// frees the allocation exactly when the count reaches zero.
    pub fn drop_handle(&mut self, h: ResourceHandle)
        requires
            old(self).wf(),
            old(self).valid_handle(h),
        ensures
            final(self).wf(),
            final(self).len() == old(self).len(),
            final(self).rc_of(h.id()) == old(self).rc_of(h.id()) - 1,
            final(self).slot_of(h.id()).uuid == old(self).slot_of(h.id()).uuid,
            final(self).freed(h.id()) <==> old(self).rc_of(h.id()) == 1,
            forall|id: int|
                0 <= id < old(self).len() && id != h.id() ==> final(self).slot_of(id) == old(
                    self,
                ).slot_of(id),
    {
        let mut s = self.slots[h.slot];
        s.rc = s.rc - 1;
        if s.rc == 0 {
            s.freed = true;
        }
        self.slots[h.slot] = s;
        proof {
            assert forall|id: int| 0 <= id < self.len() implies (#[trigger] self.freed(id)
                <==> self.rc_of(id) == 0) by {
                assert(old(self).freed(id) <==> old(self).rc_of(id) == 0);
                if id != h.id() {
                    assert(self.slot_of(id) == old(self).slot_of(id));
                }
            }
        }
    }

    /// Current reference count of the allocation a handle names.
    pub fn refcount(&self, h: &ResourceHandle) -> (n: usize)
        requires
            0 <= h.id() < self.len(),
        ensures
            n == self.rc_of(h.id()),
    {
        self.slots[h.slot].rc
    }

    /// Whether the allocation a handle names still has live clones.
    pub fn is_live(&self, h: &ResourceHandle) -> (b: bool)
        requires
            0 <= h.id() < self.len(),
        ensures
            b == self.live(h.id()),
    {
        self.slots[h.slot].rc > 0
    }
}

/// The arena `post` was reached from `pre` by allocations and clones alone:
/// every allocation of `pre` keeps its uuid and stays live.
pub open spec fn arena_extends(pre: HandleArena, post: HandleArena) -> bool {
    &&& post.len() >= pre.len()
    &&& forall|id: int|
        0 <= id < pre.len() ==> (#[trigger] post.slot_of(id)).uuid == pre.slot_of(id).uuid && (
        pre.rc_of(id) > 0 ==> post.rc_of(id) > 0)
}

/// A handle valid before allocations and clones is valid after.
pub proof fn lemma_extends_valid(pre: HandleArena, post: HandleArena, h: ResourceHandle)
    requires
        arena_extends(pre, post),
        pre.valid_handle(h),
    ensures
        post.valid_handle(h),
{
    assert(post.slot_of(h.id()).uuid == pre.slot_of(h.id()).uuid);
}

/// Arena evolution composes.
pub proof fn lemma_extends_trans(a1: HandleArena, a2: HandleArena, a3: HandleArena)
    requires
        arena_extends(a1, a2),
        arena_extends(a2, a3),
    ensures
        arena_extends(a1, a3),
{
    assert forall|id: int|
        0 <= id < a1.len() implies (#[trigger] a3.slot_of(id)).uuid == a1.slot_of(id).uuid && (
    a1.rc_of(id) > 0 ==> a3.rc_of(id) > 0) by {
        assert(a2.slot_of(id).uuid == a1.slot_of(id).uuid);
        assert(a3.slot_of(id).uuid == a2.slot_of(id).uuid);
    }
}

/// One reference-counting step on an allocation: a clone or a drop.
#[derive(Copy, Clone, PartialEq, Eq, Structural, Debug)]
pub enum RefOp {
    Acquire,
    Release,
}

/// Reference count after applying `ops`, in order, to a count of `initial`.
pub open spec fn rc_after(initial: nat, ops: Seq<RefOp>) -> int
    decreases ops.len(),
{
    if ops.len() == 0 {
        initial as int
    } else {
        match ops.last() {
            RefOp::Acquire => rc_after(initial, ops.drop_last()) + 1,
            RefOp::Release => rc_after(initial, ops.drop_last()) - 1,
        }
    }
}

/// Law: for any handle allocation, after N clones and M drops in any order,
/// the reference count is `initial + N - M`; and since the arena frees an
/// allocation exactly when its count reaches zero (see `HandleArena::wf` and
/// `drop_handle`), the backing block is freed if and only if that balance
/// is zero.
pub proof fn lemma_refcount_balance(initial: nat, ops: Seq<RefOp>)
    ensures
        rc_after(initial, ops) == initial + ops.filter(|op: RefOp| op == RefOp::Acquire).len()
            - ops.filter(|op: RefOp| op == RefOp::Release).len(),
    decreases ops.len(),
{
    reveal(Seq::filter);
    if ops.len() == 0 {
        assert(ops.filter(|op: RefOp| op == RefOp::Acquire) =~= Seq::<RefOp>::empty());
        assert(ops.filter(|op: RefOp| op == RefOp::Release) =~= Seq::<RefOp>::empty());
    } else {
        lemma_refcount_balance(initial, ops.drop_last());
    }
}

} // verus!
