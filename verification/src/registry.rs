//! Handle-keyed resource registries.
//!
//! The resource manager keeps one registry per resource category.  A
//! registry is an association list from handles to resources, with one
//! entry per handle identity, viewed as a map from handle to resource.

use vstd::prelude::*;

use crate::handles::ResourceHandle;

verus! {

/// The map an entry list denotes; a later entry of a key would replace an
/// earlier one, though a well-formed registry never holds two.
pub open spec fn map_of_entries<T>(s: Seq<(ResourceHandle, T)>) -> Map<ResourceHandle, T>
    decreases s.len(),
{
    if s.len() == 0 {
        Map::empty()
    } else {
        map_of_entries(s.drop_last()).insert(s.last().0, s.last().1)
    }
}

/// One entry per handle identity.
pub open spec fn handles_unique<T>(s: Seq<(ResourceHandle, T)>) -> bool {
    forall|i: int, j: int|
        0 <= i < j < s.len() ==> (#[trigger] s[i]).0.id() != (#[trigger] s[j]).0.id()
}

/// Appending an entry updates the map at exactly its key.
pub proof fn lemma_entries_push<T>(s: Seq<(ResourceHandle, T)>, h: ResourceHandle, v: T)
    ensures
        map_of_entries(s.push((h, v))) == map_of_entries(s).insert(h, v),
{
    assert(s.push((h, v)).drop_last() =~= s);
}

/// Replacing the value of entry `k` updates the map at exactly its key.
pub proof fn lemma_entries_update<T>(s: Seq<(ResourceHandle, T)>, k: int, v: T)
    requires
        handles_unique(s),
        0 <= k < s.len(),
    ensures
        map_of_entries(s.update(k, (s[k].0, v))) == map_of_entries(s).insert(s[k].0, v),
    decreases s.len(),
{
    let s2 = s.update(k, (s[k].0, v));
    if k == s.len() - 1 {
        assert(s2.drop_last() =~= s.drop_last());
        assert(s2.last() == (s[k].0, v));
        assert(map_of_entries(s.drop_last()).insert(s.last().0, s.last().1).insert(s[k].0, v)
            =~= map_of_entries(s.drop_last()).insert(s[k].0, v));
    } else {
        let last = s.last();
        assert(s2.drop_last() =~= s.drop_last().update(k, (s[k].0, v)));
        assert(s2.last() == last);
        assert(handles_unique(s.drop_last())) by {
            assert(forall|i: int, j: int|
                0 <= i < j < s.drop_last().len() ==> s.drop_last()[i] == (#[trigger] s[i])
                    && s.drop_last()[j] == (#[trigger] s[j]));
        }
        assert(s.drop_last()[k] == s[k]);
        lemma_entries_update(s.drop_last(), k, v);
        assert(s[k].0.id() != last.0.id()) by {
            assert(s[k].0.id() != s[s.len() - 1].0.id());
        }
        assert(map_of_entries(s.drop_last()).insert(s[k].0, v).insert(last.0, last.1)
            =~= map_of_entries(s.drop_last()).insert(last.0, last.1).insert(s[k].0, v));
    }
}

/// With unique identities, the map sends entry `k`'s handle to its value.
pub proof fn lemma_entries_lookup<T>(s: Seq<(ResourceHandle, T)>, k: int)
    requires
        handles_unique(s),
        0 <= k < s.len(),
    ensures
        map_of_entries(s).dom().contains(s[k].0),
        map_of_entries(s)[s[k].0] == s[k].1,
    decreases s.len(),
{
    if k < s.len() - 1 {
        assert(handles_unique(s.drop_last())) by {
            assert(forall|i: int, j: int|
                0 <= i < j < s.drop_last().len() ==> s.drop_last()[i] == (#[trigger] s[i])
                    && s.drop_last()[j] == (#[trigger] s[j]));
        }
        assert(s.drop_last()[k] == s[k]);
        lemma_entries_lookup(s.drop_last(), k);
        assert(s[k].0.id() != s.last().0.id()) by {
            assert(s[k].0.id() != s[s.len() - 1].0.id());
        }
        assert(s[k].0 != s.last().0);
    }
}

/// Every value the map takes is some entry's value.
pub proof fn lemma_value_from_entries<T>(s: Seq<(ResourceHandle, T)>, h: ResourceHandle)
    requires
        map_of_entries(s).dom().contains(h),
    ensures
        exists|k: int|
            0 <= k < s.len() && (#[trigger] s[k]).0 == h && s[k].1 == map_of_entries(s)[h],
    decreases s.len(),
{
    if s.len() > 0 {
        if s.last().0 == h {
            assert(s[s.len() - 1].0 == h && s[s.len() - 1].1 == map_of_entries(s)[h]);
        } else {
            lemma_value_from_entries(s.drop_last(), h);
            let k = choose|k: int|
                0 <= k < s.drop_last().len() && (#[trigger] s.drop_last()[k]).0 == h
                    && s.drop_last()[k].1 == map_of_entries(s.drop_last())[h];
            assert(s[k] == s.drop_last()[k]);
        }
    }
}

/// A handle is in the map exactly when some entry carries it.
pub proof fn lemma_entries_domain<T>(s: Seq<(ResourceHandle, T)>, h: ResourceHandle)
    ensures
        map_of_entries(s).dom().contains(h) <==> exists|i: int|
            0 <= i < s.len() && (#[trigger] s[i]).0 == h,
    decreases s.len(),
{
    if s.len() > 0 {
        lemma_entries_domain(s.drop_last(), h);
        if s.last().0 == h {
            assert(s[s.len() - 1].0 == h);
        } else {
            assert(forall|i: int| 0 <= i < s.len() - 1 ==> s.drop_last()[i] == (#[trigger] s[i]));
        }
    }
}

/// Every entry's handle names a live allocation of the arena.
pub open spec fn keys_valid<T>(arena: crate::handles::HandleArena, s: Seq<(ResourceHandle, T)>) -> bool {
    forall|k: int| 0 <= k < s.len() ==> arena.valid_handle((#[trigger] s[k]).0)
}

/// Key validity survives allocations and clones.
pub proof fn lemma_keys_valid_extends<T>(
    pre: crate::handles::HandleArena,
    post: crate::handles::HandleArena,
    s: Seq<(ResourceHandle, T)>,
)
    requires
        keys_valid(pre, s),
        crate::handles::arena_extends(pre, post),
    ensures
        keys_valid(post, s),
{
    assert forall|k: int| 0 <= k < s.len() implies post.valid_handle((#[trigger] s[k]).0) by {
        crate::handles::lemma_extends_valid(pre, post, s[k].0);
    }
}

/// The set of handles a registry holds entries for.
pub open spec fn reg_dom<T>(r: &Registry<T>) -> Set<ResourceHandle> {
    map_of_entries(r.seq()).dom()
}

/// A registry's map view is the map its entry list denotes.
pub proof fn lemma_registry_view<T>(r: &Registry<T>)
    ensures
        r@ == map_of_entries(r.seq()),
{
}

/// A handle-keyed registry of resources of one category.
pub struct Registry<T> {
    entries: Vec<(ResourceHandle, T)>,
}

impl<T> View for Registry<T> {
    type V = Map<ResourceHandle, T>;

    closed spec fn view(&self) -> Map<ResourceHandle, T> {
        map_of_entries(self.entries@)
    }
}

impl<T> Registry<T> {
    /// The entries, in insertion order.
    pub closed spec fn seq(&self) -> Seq<(ResourceHandle, T)> {
        self.entries@
    }

    /// One entry per handle identity.
    pub open spec fn wf(&self) -> bool {
        handles_unique(self.seq())
    }

    /// Whether some entry's handle has identity `id`.
    pub open spec fn contains_id(&self, id: int) -> bool {
        exists|k: int| 0 <= k < self.seq().len() && (#[trigger] self.seq()[k]).0.id() == id
    }

    /// Creates an empty registry.
    pub fn new() -> (r: Registry<T>)
        ensures
            r.seq() == Seq::<(ResourceHandle, T)>::empty(),
            r@ == Map::<ResourceHandle, T>::empty(),
            r.wf(),
    {
        Registry { entries: Vec::new() }
    }

    /// Number of entries.
    pub fn len(&self) -> (n: usize)
        ensures
            n == self.seq().len(),
    {
        self.entries.len()
    }

    /// Adds an entry under a handle no entry holds yet.
    pub fn insert(&mut self, h: ResourceHandle, v: T)
        requires
            old(self).wf(),
            !old(self).contains_id(h.id()),
        ensures
            final(self).wf(),
            final(self).seq() == old(self).seq().push((h, v)),
            final(self)@ == old(self)@.insert(h, v),
    {
        proof {
            lemma_entries_push(self.entries@, h, v);
        }
        self.entries.push((h, v));
        proof {
            assert forall|i: int, j: int|
                0 <= i < j < self.entries@.len() implies (#[trigger] self.entries@[i]).0.id() != (
            #[trigger] self.entries@[j]).0.id() by {
                if j < old(self).seq().len() {
                    assert(self.entries@[i] == old(self).seq()[i]);
                    assert(self.entries@[j] == old(self).seq()[j]);
                } else {
                    assert(self.entries@[i] == old(self).seq()[i]);
                    assert(self.entries@[j] == (h, v));
                }
            }
        }
    }

    /// The position of the entry holding exactly this handle.
    pub fn index_of(&self, h: &ResourceHandle) -> (r: Option<usize>)
        requires
            self.wf(),
        ensures
            match r {
                Some(k) => k < self.seq().len() && self.seq()[k as int].0 == *h
                    && self@.dom().contains(*h) && self@[*h] == self.seq()[k as int].1,
                None => !self@.dom().contains(*h),
            },
    {
        let n = self.entries.len();
        let mut k: usize = 0;
        while k < n
            invariant
                k <= n,
                n == self.entries@.len(),
                self.wf(),
                forall|j: int| 0 <= j < k ==> (#[trigger] self.entries@[j]).0 != *h,
            decreases n - k,
        {
            if self.entries[k].0 == *h {
                proof {
                    lemma_entries_lookup(self.entries@, k as int);
                }
                return Some(k);
            }
            k = k + 1;
        }
        proof {
            lemma_entries_domain(self.entries@, *h);
        }
        None
    }

    /// Borrows the resource an exact handle maps to.
    pub fn get(&self, h: &ResourceHandle) -> (r: Option<&T>)
        requires
            self.wf(),
        ensures
            match r {
                Some(v) => self@.dom().contains(*h) && *v == self@[*h],
                None => !self@.dom().contains(*h),
            },
    {
        match self.index_of(h) {
            Some(k) => Some(&self.entries[k].1),
            None => None,
        }
    }

    /// The handle of entry `k`.
    pub fn handle_at(&self, k: usize) -> (r: &ResourceHandle)
        requires
            k < self.seq().len(),
        ensures
            *r == self.seq()[k as int].0,
    {
        &self.entries[k].0
    }

    /// Borrows the resource of entry `k`.
    pub fn value_at(&self, k: usize) -> (r: &T)
        requires
            k < self.seq().len(),
        ensures
            *r == self.seq()[k as int].1,
    {
        &self.entries[k].1
    }

    /// Mutably borrows the resource of entry `k`; the registry afterwards
    /// maps the entry's handle to whatever the borrow leaves behind.
    pub fn value_at_mut(&mut self, k: usize) -> (v: &mut T)
        requires
            old(self).wf(),
            k < old(self).seq().len(),
        ensures
            *v == old(self).seq()[k as int].1,
            final(self).seq() == old(self).seq().update(
                k as int,
                (old(self).seq()[k as int].0, *final(v)),
            ),
            final(self).wf(),
            final(self)@ == old(self)@.insert(old(self).seq()[k as int].0, *final(v)),
    {
        proof {
            let s = self.entries@;
            assert forall|x: T|
                #[trigger] map_of_entries(s.update(k as int, (s[k as int].0, x)))
                    == map_of_entries(s).insert(s[k as int].0, x) by {
                lemma_entries_update(s, k as int, x);
            }
            assert forall|x: T| handles_unique(#[trigger] s.update(k as int, (s[k as int].0, x))) by {
                let s2 = s.update(k as int, (s[k as int].0, x));
                assert forall|i: int, j: int|
                    0 <= i < j < s2.len() implies (#[trigger] s2[i]).0.id() != (
                #[trigger] s2[j]).0.id() by {
                    assert(s2[i].0 == s[i].0);
                    assert(s2[j].0 == s[j].0);
                }
            }
        }
        &mut self.entries[k].1
    }
}

} // verus!
