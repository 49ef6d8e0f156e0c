use vstd::prelude::*;

verus! {

/// The map described by a sequence of entries, later entries replacing earlier ones.
pub open spec fn entries_map<KV, VV>(s: Seq<(KV, VV)>) -> Map<KV, VV>
    decreases s.len(),
{
    if s.len() == 0 {
        Map::empty()
    } else {
        entries_map(s.drop_last()).insert(s.last().0, s.last().1)
    }
}

/// No key occurs twice in a sequence of entries.
pub open spec fn keys_distinct<KV, VV>(s: Seq<(KV, VV)>) -> bool {
    forall|i: int, j: int| 0 <= i < j < s.len() ==> s[i].0 != s[j].0
}

/// The entries, each taken by its view.
pub open spec fn entry_views<K: View, V: View>(s: Seq<(K, V)>) -> Seq<(K::V, V::V)> {
    s.map_values(|e: (K, V)| (e.0@, e.1@))
}

/// The keys of the map described by a sequence of entries are the keys of the entries.
pub proof fn lemma_entries_map_keys<KV, VV>(s: Seq<(KV, VV)>)
    ensures
        entries_map(s).dom().finite(),
        forall|k: KV| #[trigger] entries_map(s).contains_key(k) <==> exists|j: int| 0 <= j < s.len() && s[j].0 == k,
    decreases s.len(),
{
    if s.len() > 0 {
        let t = s.drop_last();
        lemma_entries_map_keys(t);
        assert forall|k: KV| #[trigger] entries_map(s).contains_key(k) <==> exists|j: int| 0 <= j < s.len() && s[j].0 == k by {
            if entries_map(s).contains_key(k) && k != s.last().0 {
                let j = choose|j: int| 0 <= j < t.len() && t[j].0 == k;
                assert(s[j].0 == k);
            }
            if exists|j: int| 0 <= j < s.len() && s[j].0 == k {
                let j = choose|j: int| 0 <= j < s.len() && s[j].0 == k;
                if j < s.len() - 1 {
                    assert(t[j].0 == k);
                }
            }
        }
    }
}

/// With distinct keys, every entry is read back from the map it describes.
pub proof fn lemma_entries_map_values<KV, VV>(s: Seq<(KV, VV)>)
    requires
        keys_distinct(s),
    ensures
        forall|j: int| 0 <= j < s.len() ==> #[trigger] entries_map(s)[s[j].0] == s[j].1,
    decreases s.len(),
{
    if s.len() > 0 {
        let t = s.drop_last();
        lemma_entries_map_values(t);
        assert forall|j: int| 0 <= j < s.len() implies #[trigger] entries_map(s)[s[j].0] == s[j].1 by {
            if j < s.len() - 1 {
                assert(t[j] == s[j]);
                assert(s[j].0 != s.last().0);
                assert(entries_map(t)[t[j].0] == t[j].1);
            }
        }
    }
}

/// A key that can be compared for equality of its view in executable code.
pub trait MapKey: View + Sized {
    fn same_key(&self, other: &Self) -> (r: bool)
        ensures
            r == (self@ == other@),
    ;
}

/// A finite map held as a vector of distinct-keyed entries.
pub struct KeyedMap<K: View, V: View> {
    entries: Vec<(K, V)>,
    model: Ghost<Map<K::V, V::V>>,
}

impl<K: View, V: View> View for KeyedMap<K, V> {
    type V = Map<K::V, V::V>;

    closed spec fn view(&self) -> Map<K::V, V::V> {
        self.model@
    }
}

impl<K: MapKey, V: View> KeyedMap<K, V> {
    /// The entries hold distinct keys and agree with the model, which is finite.
    pub closed spec fn wf(&self) -> bool {
        &&& forall|i: int, j: int|
            0 <= i < self.entries@.len() && 0 <= j < self.entries@.len() && i != j
                ==> self.entries@[i].0@ != self.entries@[j].0@
        &&& forall|i: int|
            0 <= i < self.entries@.len() ==> {
                &&& self.model@.contains_key(#[trigger] self.entries@[i].0@)
                &&& self.model@[self.entries@[i].0@] == self.entries@[i].1@
            }
        &&& forall|k: K::V|
            #[trigger] self.model@.contains_key(k) ==> exists|i: int|
                0 <= i < self.entries@.len() && self.entries@[i].0@ == k
        &&& self.model@.dom().finite()
    }

    pub fn new() -> (m: Self)
        ensures
            m.wf(),
            m@ == Map::<K::V, V::V>::empty(),
    {
        KeyedMap { entries: Vec::new(), model: Ghost(Map::empty()) }
    }

    /// Index of the entry with the given key, if any.
    fn find(&self, key: &K) -> (r: Option<usize>)
        requires
            self.wf(),
        ensures
            match r {
                Some(i) => i < self.entries@.len() && self.entries@[i as int].0@ == key@,
                None => !self@.contains_key(key@),
            },
    {
        let mut i: usize = 0;
        while i < self.entries.len()
            invariant
                self.wf(),
                i <= self.entries@.len(),
                forall|j: int| 0 <= j < i ==> self.entries@[j].0@ != key@,
            decreases self.entries@.len() - i,
        {
            if self.entries[i].0.same_key(key) {
                return Some(i);
            }
            i = i + 1;
        }
        None
    }

    /// The value stored under `key`, if any.
    pub fn get(&self, key: &K) -> (r: Option<&V>)
        requires
            self.wf(),
        ensures
            match r {
                Some(v) => self@.contains_key(key@) && v@ == self@[key@],
                None => !self@.contains_key(key@),
            },
    {
        match self.find(key) {
            Some(i) => Some(&self.entries[i].1),
            None => None,
        }
    }

    /// Stores `value` under `key`, replacing any earlier value.
    pub fn set(&mut self, key: K, value: V)
        requires
            old(self).wf(),
        ensures
            final(self).wf(),
            final(self)@ == old(self)@.insert(key@, value@),
    {
        let ghost kv = key@;
        let ghost vv = value@;
        match self.find(&key) {
            Some(i) => {
                self.entries.set(i, (key, value));
                self.model = Ghost(self.model@.insert(kv, vv));
                assert forall|k: K::V| #[trigger] self.model@.contains_key(k) implies exists|j: int|
                    0 <= j < self.entries@.len() && self.entries@[j].0@ == k by {
                    if k != kv {
                        let j = choose|j: int| 0 <= j < old(self).entries@.len() && old(self).entries@[j].0@ == k;
                        assert(self.entries@[j].0@ == k);
                    } else {
                        assert(self.entries@[i as int].0@ == k);
                    }
                }
            },
            None => {
                self.entries.push((key, value));
                self.model = Ghost(self.model@.insert(kv, vv));
                assert forall|k: K::V| #[trigger] self.model@.contains_key(k) implies exists|j: int|
                    0 <= j < self.entries@.len() && self.entries@[j].0@ == k by {
                    if k != kv {
                        let j = choose|j: int| 0 <= j < old(self).entries@.len() && old(self).entries@[j].0@ == k;
                        assert(self.entries@[j].0@ == k);
                    } else {
                        assert(self.entries@[old(self).entries@.len() as int].0@ == k);
                    }
                }
            },
        }
    }
    /// The entries of the map, with distinct keys.
    pub fn into_entries(self) -> (r: Vec<(K, V)>)
        requires
            self.wf(),
        ensures
            keys_distinct(entry_views(r@)),
            entries_map(entry_views(r@)) == self@,
    {
        let ghost views = entry_views(self.entries@);
        proof {
            assert(keys_distinct(views));
            lemma_entries_map_keys(views);
            lemma_entries_map_values(views);
            assert forall|k: K::V| #[trigger] self@.contains_key(k) implies entries_map(views).contains_key(k) by {
                let j = choose|j: int| 0 <= j < self.entries@.len() && self.entries@[j].0@ == k;
                assert(views[j].0 == k);
            }
            assert forall|k: K::V| #[trigger] entries_map(views).contains_key(k) implies self@.contains_key(k) && entries_map(views)[k] == self@[k] by {
                let j = choose|j: int| 0 <= j < views.len() && views[j].0 == k;
                assert(self.entries@[j].0@ == k);
            }
            assert(entries_map(views) =~= self@);
        }
        self.entries
    }

    /// The map described by `entries`, or nothing when a key occurs twice.
    pub fn from_entries(entries: Vec<(K, V)>) -> (r: Option<Self>)
        ensures
            r is Some <==> keys_distinct(entry_views(entries@)),
            r matches Some(m) ==> m.wf() && m@ == entries_map(entry_views(entries@)),
    {
        let ghost all = entry_views(entries@);
        let mut rest = entries;
        let mut m = Self::new();
        let ghost mut i: int = 0;
        while rest.len() > 0
            invariant
                m.wf(),
                all == entry_views(entries@),
                0 <= i <= all.len(),
                entry_views(rest@) == all.skip(i),
                keys_distinct(all.take(i)),
                m@ == entries_map(all.take(i)),
            decreases rest@.len(),
        {
            let ghost before = rest@;
            let (k, v) = rest.remove(0);
            proof {
                assert(entry_views(before).len() == before.len());
                assert(i < all.len());
                assert(all.skip(i)[0] == all[i]);
                assert(before[0] == (k, v));
                assert(entry_views(before)[0] == (before[0].0@, before[0].1@));
                assert(entry_views(before)[0] == all.skip(i)[0]);
                assert(all[i] == (k@, v@));
                assert(rest@ =~= before.subrange(1, before.len() as int));
                assert forall|j: int| 0 <= j < rest@.len() implies #[trigger] entry_views(rest@)[j] == all.skip(i + 1)[j] by {
                    assert(rest@[j] == before[j + 1]);
                    assert(entry_views(rest@)[j] == (rest@[j].0@, rest@[j].1@));
                    assert(entry_views(before)[j + 1] == (before[j + 1].0@, before[j + 1].1@));
                    assert(entry_views(before)[j + 1] == all.skip(i)[j + 1]);
                    assert(all.skip(i)[j + 1] == all[i + j + 1]);
                    assert(all.skip(i + 1)[j] == all[i + j + 1]);
                }
                assert(entry_views(rest@) =~= all.skip(i + 1));
                lemma_entries_map_keys(all.take(i));
            }
            if m.get(&k).is_some() {
                proof {
                    let j = choose|j: int| 0 <= j < all.take(i).len() && all.take(i)[j].0 == k@;
                    assert(all.take(i)[j] == all[j]);
                    assert(all[j].0 == all[i].0);
                    assert(!keys_distinct(all));
                }
                return None;
            }
            m.set(k, v);
            proof {
                assert(all.take(i + 1).drop_last() =~= all.take(i));
                assert forall|a: int, b: int| 0 <= a < b < all.take(i + 1).len() implies #[trigger] all.take(i + 1)[a].0 != #[trigger] all.take(i + 1)[b].0 by {
                    if b == i {
                        if all.take(i)[a].0 == k@ {
                            assert(entries_map(all.take(i)).contains_key(k@));
                        }
                    } else {
                        assert(all.take(i)[a] == all.take(i + 1)[a]);
                        assert(all.take(i)[b] == all.take(i + 1)[b]);
                    }
                }
                i = i + 1;
            }
        }
        proof {
            assert(all.skip(i).len() == 0);
            assert(all.take(i) =~= all);
        }
        Some(m)
    }
}

} // verus!
