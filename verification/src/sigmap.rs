//! Named signal maps: the port-name → signal collections that cells
//! receive as inputs and produce as outputs.
//!
//! The map is an association vector, so iteration follows insertion
//! order (the order the host declared the ports in), and updating an
//! existing key keeps its position.

use vstd::prelude::*;

use crate::vector3vl::Vec3vl;

verus! {

/// The finite map denoted by an association list (later entries win).
pub open spec fn entries_map(s: Seq<(String, Vec3vl)>) -> Map<Seq<char>, crate::vector3vl::Vec3vlV>
    decreases s.len(),
{
    if s.len() == 0 {
        Map::empty()
    } else {
        entries_map(s.drop_last()).insert(s.last().0@, s.last().1@)
    }
}

/// A port-name → signal map with insertion-order iteration.
pub struct SigMap {
    pub entries: Vec<(String, Vec3vl)>,
}

impl SigMap {
    /// Keys are unique.
    pub open spec fn wf(self) -> bool {
        forall|i: int, j: int|
            0 <= i < j < self.entries@.len() ==> (#[trigger] self.entries@[i].0@) != (
            #[trigger] self.entries@[j].0@)
    }

    /// The finite map this association list denotes.
    pub open spec fn view(self) -> Map<Seq<char>, crate::vector3vl::Vec3vlV> {
        entries_map(self.entries@)
    }

    /// Number of entries.
    pub open spec fn spec_len(self) -> nat {
        self.entries@.len()
    }

    /// Every signal in the map is well formed.
    pub open spec fn values_wf(self) -> bool {
        forall|k: Seq<char>|
            self@.contains_key(k) ==> crate::vector3vl::view_wf(#[trigger] self@[k])
    }

    /// Every entry of the association list is well formed (implies
    /// [`SigMap::values_wf`] when keys are unique).
    pub open spec fn entries_wf(self) -> bool {
        forall|i: int| 0 <= i < self.entries@.len() ==> (#[trigger] self.entries@[i].1).well_formed()
    }

    pub fn new() -> (r: SigMap)
        ensures
            r.wf(),
            r@ == Map::<Seq<char>, crate::vector3vl::Vec3vlV>::empty(),
            r.entries@.len() == 0,
    {
        SigMap { entries: Vec::new() }
    }

    pub fn len(&self) -> (r: usize)
        ensures
            r == self.entries@.len(),
    {
        self.entries.len()
    }

    /// The key of the `i`-th entry, in insertion order.
    pub fn key_at(&self, i: usize) -> (r: &String)
        requires
            i < self.entries@.len(),
        ensures
            r@ == self.entries@[i as int].0@,
    {
        &self.entries[i].0
    }

    /// The signal of the `i`-th entry, in insertion order.
    pub fn val_at(&self, i: usize) -> (r: &Vec3vl)
        requires
            i < self.entries@.len(),
        ensures
            *r == self.entries@[i as int].1,
    {
        &self.entries[i].1
    }

    /// Look up a port by name.
    pub fn get(&self, key: &str) -> (r: Option<&Vec3vl>)
        requires
            self.wf(),
        ensures
            r is Some <==> self@.contains_key(key@),
            r is Some ==> (r->0)@ == self@[key@],
    {
        let ks: String = key.to_owned();
        let n = self.entries.len();
        let mut i: usize = 0;
        while i < n
            invariant
                i <= n,
                n == self.entries@.len(),
                self.wf(),
                ks@ == key@,
                forall|j: int| 0 <= j < i ==> (#[trigger] self.entries@[j].0@) != key@,
            decreases n - i,
        {
            if self.entries[i].0 == ks {
                proof {
                    lemma_entries_map_present(self.entries@, i as int);
                }
                return Some(&self.entries[i].1);
            }
            i = i + 1;
        }
        proof {
            lemma_entries_map_absent(self.entries@, key@);
        }
        None
    }

    /// Insert or overwrite a port.  An existing key keeps its position
    /// in the iteration order; a new key goes to the end.
    pub fn insert(&mut self, key: String, val: Vec3vl)
        requires
            old(self).wf(),
        ensures
            final(self).wf(),
            final(self)@ == old(self)@.insert(key@, val@),
            final(self).entries@.len() == (if old(self)@.contains_key(key@) {
                old(self).entries@.len()
            } else {
                old(self).entries@.len() + 1
            }),
            forall|j: int|
                0 <= j < old(self).entries@.len() ==> (#[trigger] final(self).entries@[j].0@)
                    == old(self).entries@[j].0@,
    {
        let ghost prev = self.entries@;
        let n = self.entries.len();
        let mut i: usize = 0;
        while i < n
            invariant
                i <= n,
                n == self.entries@.len(),
                self.wf(),
                self.entries@ == prev,
                prev == old(self).entries@,
                forall|j: int| 0 <= j < i ==> (#[trigger] self.entries@[j].0@) != key@,
            decreases n - i,
        {
            if self.entries[i].0 == key {
                self.entries.set(i, (key, val));
                proof {
                    lemma_entries_map_present(prev, i as int);
                    let e = self.entries@[i as int];
                    assert(e.0@ == prev[i as int].0@);
                    lemma_entries_map_update(prev, i as int, e);
                    assert(self.entries@ == prev.update(i as int, e));
                    assert(self@ == entries_map(prev).insert(key@, val@));
                }
                return ;
            }
            i = i + 1;
        }
        self.entries.push((key, val));
        proof {
            lemma_entries_map_absent(prev, self.entries@.last().0@);
            assert(self.entries@.drop_last() =~= prev);
        }
    }
}

impl Clone for SigMap {
    /// An exact copy: same entries in the same order.
    fn clone(&self) -> (r: Self)
        ensures
            r.entries@.len() == self.entries@.len(),
            forall|i: int|
                0 <= i < self.entries@.len() ==> (#[trigger] r.entries@[i].0@) == self.entries@[i].0@,
            forall|i: int|
                0 <= i < self.entries@.len() ==> (#[trigger] r.entries@[i].1@) == self.entries@[i].1@,
            self.wf() ==> r.wf() && r@ == self@,
    {
        let n = self.entries.len();
        let mut entries: Vec<(String, Vec3vl)> = Vec::new();
        let mut i: usize = 0;
        while i < n
            invariant
                i <= n,
                n == self.entries@.len(),
                entries@.len() == i,
                forall|j: int| 0 <= j < i ==> (#[trigger] entries@[j].0@) == self.entries@[j].0@,
                forall|j: int| 0 <= j < i ==> (#[trigger] entries@[j].1@) == self.entries@[j].1@,
            decreases n - i,
        {
            let k = self.entries[i].0.clone();
            let v = self.entries[i].1.clone();
            proof {
                assert(v.bits == self.entries@[i as int].1.bits);
            }
            entries.push((k, v));
            i = i + 1;
        }
        let r = SigMap { entries };
        proof {
            assert(r.entries@ == entries@);
            assert forall|j: int| 0 <= j < n implies (#[trigger] r.entries@[j].0@)
                == self.entries@[j].0@ by {
                assert(entries@[j].0@ == self.entries@[j].0@);
            }
            assert forall|j: int| 0 <= j < n implies (#[trigger] r.entries@[j].1@)
                == self.entries@[j].1@ by {
                assert(entries@[j].1@ == self.entries@[j].1@);
            }
            if self.wf() {
                lemma_entries_map_congruence(r.entries@, self.entries@);
            }
        }
        r
    }
}

/// With unique keys, the map holds entry `i` under its key.
pub proof fn lemma_entries_map_present(s: Seq<(String, Vec3vl)>, i: int)
    requires
        0 <= i < s.len(),
        forall|a: int, b: int|
            0 <= a < b < s.len() ==> (#[trigger] s[a].0@) != (#[trigger] s[b].0@),
    ensures
        entries_map(s).contains_key(s[i].0@),
        entries_map(s)[s[i].0@] == s[i].1@,
    decreases s.len(),
{
    if i == s.len() - 1 {
    } else {
        lemma_entries_map_present(s.drop_last(), i);
        assert(s.drop_last()[i] == s[i]);
        assert(s[i].0@ != s.last().0@);
    }
}

/// A key on no entry is not in the map.
pub proof fn lemma_entries_map_absent(s: Seq<(String, Vec3vl)>, key: Seq<char>)
    requires
        forall|j: int| 0 <= j < s.len() ==> (#[trigger] s[j].0@) != key,
    ensures
        !entries_map(s).contains_key(key),
    decreases s.len(),
{
    if s.len() > 0 {
        lemma_entries_map_absent(s.drop_last(), key);
    }
}

/// Overwriting entry `i` in place updates the map at its key.
pub proof fn lemma_entries_map_update(s: Seq<(String, Vec3vl)>, i: int, e: (String, Vec3vl))
    requires
        0 <= i < s.len(),
        e.0@ == s[i].0@,
        forall|a: int, b: int|
            0 <= a < b < s.len() ==> (#[trigger] s[a].0@) != (#[trigger] s[b].0@),
    ensures
        entries_map(s.update(i, e)) == entries_map(s).insert(e.0@, e.1@),
    decreases s.len(),
{
    let s2 = s.update(i, e);
    if i == s.len() - 1 {
        assert(s2.drop_last() =~= s.drop_last());
        assert(entries_map(s2) =~= entries_map(s).insert(e.0@, e.1@));
    } else {
        lemma_entries_map_update(s.drop_last(), i, e);
        assert(s2.drop_last() =~= s.drop_last().update(i, e));
        assert(s2.last() == s.last());
        assert(s.last().0@ != e.0@);
        assert(entries_map(s2) =~= entries_map(s).insert(e.0@, e.1@));
    }
}

/// Lists equal entry for entry (key text and signal) denote one map.
pub proof fn lemma_entries_map_congruence(a: Seq<(String, Vec3vl)>, b: Seq<(String, Vec3vl)>)
    requires
        a.len() == b.len(),
        forall|i: int| 0 <= i < a.len() ==> (#[trigger] a[i].0@) == b[i].0@,
        forall|i: int| 0 <= i < a.len() ==> (#[trigger] a[i].1@) == b[i].1@,
    ensures
        entries_map(a) == entries_map(b),
    decreases a.len(),
{
    if a.len() > 0 {
        lemma_entries_map_congruence(a.drop_last(), b.drop_last());
        assert(entries_map(a) =~= entries_map(b));
    }
}


/// With unique keys, well-formed entries mean every map value is well
/// formed.
pub proof fn lemma_entries_wf_values(m: SigMap)
    requires
        m.wf(),
        m.entries_wf(),
    ensures
        m.values_wf(),
{
    assert forall|k: Seq<char>| m@.contains_key(k) implies crate::vector3vl::view_wf(
        #[trigger] m@[k],
    ) by {
        lemma_entries_map_key_index(m.entries@, k);
        let i = choose|i: int|
            0 <= i < m.entries@.len() && m.entries@[i].0@ == k && entries_map(m.entries@)[k]
                == m.entries@[i].1@;
        assert(m.entries@[i].1.well_formed());
    }
}

/// Every key of the map comes from some entry, which carries its value.
pub proof fn lemma_entries_map_key_index(s: Seq<(String, Vec3vl)>, k: Seq<char>)
    requires
        entries_map(s).contains_key(k),
    ensures
        exists|i: int|
            0 <= i < s.len() && (#[trigger] s[i].0@) == k && entries_map(s)[k] == s[i].1@,
    decreases s.len(),
{
    if s.len() > 0 {
        if s.last().0@ == k {
            assert(s[s.len() - 1].0@ == k && entries_map(s)[k] == s[s.len() - 1].1@);
        } else {
            lemma_entries_map_key_index(s.drop_last(), k);
            let i = choose|i: int|
                0 <= i < s.drop_last().len() && (#[trigger] s.drop_last()[i].0@) == k && entries_map(
                    s.drop_last(),
                )[k] == s.drop_last()[i].1@;
            assert(s[i].0@ == k && entries_map(s)[k] == s[i].1@);
        }
    }
}


/// With unique keys, well-formed map values mean every entry is well
/// formed.
pub proof fn lemma_values_wf_entries(m: SigMap)
    requires
        m.wf(),
        m.values_wf(),
    ensures
        m.entries_wf(),
{
    assert forall|i: int| 0 <= i < m.entries@.len() implies (#[trigger] m.entries@[i].1).well_formed() by {
        lemma_entries_map_present(m.entries@, i);
        assert(crate::vector3vl::view_wf(m@[m.entries@[i].0@]));
    }
}

} // verus!


