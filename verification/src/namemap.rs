//! Name-keyed association maps.
//!
//! Materials wire textures and uniforms to shader bindings by variable
//! name.  A [`NameMap`] is an association list from names (raw bytes) to
//! values, one entry per name, viewed as a map from name to value.

use vstd::prelude::*;

use crate::scan::bytes_eq;

verus! {

/// The map an entry list denotes, a later entry of a name replacing an
/// earlier one.
pub open spec fn map_of_named<V>(s: Seq<(Vec<u8>, V)>) -> Map<Seq<u8>, V>
    decreases s.len(),
{
    if s.len() == 0 {
        Map::empty()
    } else {
        map_of_named(s.drop_last()).insert(s.last().0@, s.last().1)
    }
}

/// One entry per name.
pub open spec fn keys_unique<V>(s: Seq<(Vec<u8>, V)>) -> bool {
    forall|i: int, j: int|
        0 <= i < j < s.len() ==> (#[trigger] s[i]).0@ != (#[trigger] s[j]).0@
}

/// Appending an entry updates the map at exactly its name.
pub proof fn lemma_named_push<V>(s: Seq<(Vec<u8>, V)>, name: Vec<u8>, v: V)
    ensures
        map_of_named(s.push((name, v))) == map_of_named(s).insert(name@, v),
{
    assert(s.push((name, v)).drop_last() =~= s);
}

/// Replacing the value of entry `k` updates the map at exactly its name.
pub proof fn lemma_named_update<V>(s: Seq<(Vec<u8>, V)>, k: int, e: (Vec<u8>, V))
    requires
        keys_unique(s),
        0 <= k < s.len(),
        e.0@ == s[k].0@,
    ensures
        map_of_named(s.update(k, e)) == map_of_named(s).insert(e.0@, e.1),
    decreases s.len(),
{
    let s2 = s.update(k, e);
    if k == s.len() - 1 {
        assert(s2.drop_last() =~= s.drop_last());
        assert(s2.last() == e);
        assert(map_of_named(s.drop_last()).insert(s.last().0@, s.last().1).insert(e.0@, e.1)
            =~= map_of_named(s.drop_last()).insert(e.0@, e.1));
    } else {
        let last = s.last();
        assert(s2.drop_last() =~= s.drop_last().update(k, e));
        assert(s2.last() == last);
        assert(keys_unique(s.drop_last())) by {
            assert(forall|i: int, j: int|
                0 <= i < j < s.drop_last().len() ==> s.drop_last()[i] == (#[trigger] s[i])
                    && s.drop_last()[j] == (#[trigger] s[j]));
        }
        assert(s.drop_last()[k] == s[k]);
        lemma_named_update(s.drop_last(), k, e);
        assert(e.0@ != last.0@) by {
            assert(s[k].0@ != s[s.len() - 1].0@);
        }
        assert(map_of_named(s.drop_last()).insert(e.0@, e.1).insert(last.0@, last.1)
            =~= map_of_named(s.drop_last()).insert(last.0@, last.1).insert(e.0@, e.1));
    }
}

/// With unique names, the map sends entry `k`'s name to its value.
pub proof fn lemma_named_lookup<V>(s: Seq<(Vec<u8>, V)>, k: int)
    requires
        keys_unique(s),
        0 <= k < s.len(),
    ensures
        map_of_named(s).dom().contains(s[k].0@),
        map_of_named(s)[s[k].0@] == s[k].1,
    decreases s.len(),
{
    if k < s.len() - 1 {
        assert(keys_unique(s.drop_last())) by {
            assert(forall|i: int, j: int|
                0 <= i < j < s.drop_last().len() ==> s.drop_last()[i] == (#[trigger] s[i])
                    && s.drop_last()[j] == (#[trigger] s[j]));
        }
        assert(s.drop_last()[k] == s[k]);
        lemma_named_lookup(s.drop_last(), k);
        assert(s[k].0@ != s.last().0@) by {
            assert(s[k].0@ != s[s.len() - 1].0@);
        }
    }
}

/// A name is in the map exactly when some entry carries it.
pub proof fn lemma_named_domain<V>(s: Seq<(Vec<u8>, V)>, name: Seq<u8>)
    ensures
        map_of_named(s).dom().contains(name) <==> exists|i: int|
            0 <= i < s.len() && (#[trigger] s[i]).0@ == name,
    decreases s.len(),
{
    if s.len() > 0 {
        lemma_named_domain(s.drop_last(), name);
        if s.last().0@ == name {
            assert(s[s.len() - 1].0@ == name);
        } else {
            assert(forall|i: int| 0 <= i < s.len() - 1 ==> s.drop_last()[i] == (#[trigger] s[i]));
        }
    }
}

/// A name map's view is the map its entry list denotes.
pub proof fn lemma_namemap_view<V>(m: &NameMap<V>)
    ensures
        m@ == map_of_named(m.seq()),
{
}

/// A name-keyed association map.
pub struct NameMap<V> {
    entries: Vec<(Vec<u8>, V)>,
}

impl<V> View for NameMap<V> {
    type V = Map<Seq<u8>, V>;

    closed spec fn view(&self) -> Map<Seq<u8>, V> {
        map_of_named(self.entries@)
    }
}

impl<V> NameMap<V> {
    /// The entries, in insertion order.
    pub closed spec fn seq(&self) -> Seq<(Vec<u8>, V)> {
        self.entries@
    }

    /// One entry per name.
    pub open spec fn wf(&self) -> bool {
        keys_unique(self.seq())
    }

    /// Creates an empty map.
    pub fn new() -> (r: NameMap<V>)
        ensures
            r.seq() == Seq::<(Vec<u8>, V)>::empty(),
            r@ == Map::<Seq<u8>, V>::empty(),
            r.wf(),
    {
        NameMap { entries: Vec::new() }
    }

    /// Number of entries.
    pub fn len(&self) -> (n: usize)
        ensures
            n == self.seq().len(),
    {
        self.entries.len()
    }

    /// The name of entry `k`.
    pub fn name_at(&self, k: usize) -> (r: &Vec<u8>)
        requires
            k < self.seq().len(),
        ensures
            r@ == self.seq()[k as int].0@,
    {
        &self.entries[k].0
    }

    /// Borrows the value of entry `k`.
    pub fn value_at(&self, k: usize) -> (r: &V)
        requires
            k < self.seq().len(),
        ensures
            *r == self.seq()[k as int].1,
    {
        &self.entries[k].1
    }

    /// Replaces the value of entry `k`, leaving its name.
    pub fn set_value_at(&mut self, k: usize, v: V)
        requires
            old(self).wf(),
            k < old(self).seq().len(),
        ensures
            final(self).wf(),
            final(self).seq().len() == old(self).seq().len(),
            forall|j: int|
                0 <= j < old(self).seq().len() && j != k ==> final(self).seq()[j] == old(
                    self,
                ).seq()[j],
            final(self).seq()[k as int].0@ == old(self).seq()[k as int].0@,
            final(self).seq()[k as int].1 == v,
            final(self)@ == old(self)@.insert(old(self).seq()[k as int].0@, v),
    {
        let name = copy_bytes(&self.entries[k].0);
        proof {
            lemma_named_update(self.entries@, k as int, (name, v));
        }
        self.entries[k] = (name, v);
        proof {
            let s2 = self.entries@;
            let s = old(self).seq();
            assert(s2 == s.update(k as int, (name, v)));
            assert forall|i: int, j: int|
                0 <= i < j < s2.len() implies (#[trigger] s2[i]).0@ != (#[trigger] s2[j]).0@ by {
                assert(s2[i].0@ == s[i].0@);
                assert(s2[j].0@ == s[j].0@);
            }
            assert(map_of_named(s.update(k as int, (name, v))) == map_of_named(s).insert(
                s[k as int].0@,
                v,
            ));
        }
    }

    /// Sets a name to a value, replacing the entry of that name if one is
    /// present.
    pub fn set(&mut self, name: Vec<u8>, v: V)
        requires
            old(self).wf(),
        ensures
            final(self).wf(),
            final(self)@ == old(self)@.insert(name@, v),
    {
        let n = self.entries.len();
        let mut k: usize = 0;
        while k < n
            invariant
                k <= n,
                n == self.entries@.len(),
                self.wf(),
                self.entries@ == old(self).seq(),
                forall|j: int| 0 <= j < k ==> (#[trigger] self.entries@[j]).0@ != name@,
            decreases n - k,
        {
            if bytes_eq(self.entries[k].0.as_slice(), name.as_slice()) {
                proof {
                    lemma_named_update(self.entries@, k as int, (name, v));
                }
                self.entries[k] = (name, v);
                proof {
                    let s2 = self.entries@;
                    let s = old(self).seq();
                    assert forall|i: int, j: int|
                        0 <= i < j < s2.len() implies (#[trigger] s2[i]).0@ != (
                    #[trigger] s2[j]).0@ by {
                        assert(s2[i].0@ == s[i].0@);
                        assert(s2[j].0@ == s[j].0@);
                    }
                }
                return;
            }
            k = k + 1;
        }
        proof {
            lemma_named_push(self.entries@, name, v);
        }
        self.entries.push((name, v));
        proof {
            let s2 = self.entries@;
            let s = old(self).seq();
            assert forall|i: int, j: int|
                0 <= i < j < s2.len() implies (#[trigger] s2[i]).0@ != (#[trigger] s2[j]).0@ by {
                if j < s.len() {
                    assert(s2[i] == s[i]);
                    assert(s2[j] == s[j]);
                } else {
                    assert(s2[i] == s[i]);
                }
            }
        }
    }

    /// Borrows the value a name maps to.
    pub fn get(&self, name: &[u8]) -> (r: Option<&V>)
        requires
            self.wf(),
        ensures
            match r {
                Some(v) => self@.dom().contains(name@) && *v == self@[name@],
                None => !self@.dom().contains(name@),
            },
    {
        let n = self.entries.len();
        let mut k: usize = 0;
        while k < n
            invariant
                k <= n,
                n == self.entries@.len(),
                self.wf(),
                forall|j: int| 0 <= j < k ==> (#[trigger] self.entries@[j]).0@ != name@,
            decreases n - k,
        {
            if bytes_eq(self.entries[k].0.as_slice(), name) {
                proof {
                    lemma_named_lookup(self.entries@, k as int);
                }
                return Some(&self.entries[k].1);
            }
            k = k + 1;
        }
        proof {
            lemma_named_domain(self.entries@, name@);
        }
        None
    }
}

/// Copies a byte vector.
pub fn copy_bytes(v: &Vec<u8>) -> (r: Vec<u8>)
    ensures
        r@ == v@,
{
    let r = crate::scan::copy_range(v.as_slice(), 0, v.len());
    proof {
        assert(v@.subrange(0, v@.len() as int) =~= v@);
    }
    r
}

} // verus!
