use vstd::hash_map::StringHashMap;
use vstd::prelude::*;

verus! {

/// A map from string keys to string values that can also list its entries.
///
/// Besides the hash map it keeps each key once, in the order it was first
/// inserted, so that a snapshot can walk the contents.
pub struct KvMap {
    map: StringHashMap<String>,
    keys: Vec<String>,
}

impl View for KvMap {
    type V = Map<Seq<char>, Seq<char>>;

    closed spec fn view(&self) -> Map<Seq<char>, Seq<char>> {
        Map::new(|k: Seq<char>| self.map@.contains_key(k), |k: Seq<char>| self.map@[k]@)
    }
}

/// The value stored under `k` in `m`, if any.
pub open spec fn lookup(m: Map<Seq<char>, Seq<char>>, k: Seq<char>) -> Option<Seq<char>> {
    if m.contains_key(k) {
        Some(m[k])
    } else {
        None
    }
}

/// Read your write: after `v` is stored under `k`, a read of `k` gives `v`,
/// and a read of any other key gives what it gave before.
pub proof fn lemma_read_your_write(m: Map<Seq<char>, Seq<char>>, k: Seq<char>, v: Seq<char>, other: Seq<char>)
    ensures
        lookup(m.insert(k, v), k) == Some(v),
        other != k ==> lookup(m.insert(k, v), other) == lookup(m, other),
{
}

/// Whether the keys of `entries` are pairwise distinct.
pub open spec fn distinct_keys(entries: Seq<(String, String)>) -> bool {
    forall|i: int, j: int|
        0 <= i < j < entries.len() ==> (#[trigger] entries[i]).0@ != (#[trigger] entries[j]).0@
}

/// Whether `entries` lists exactly the contents of `m`, each key once.
pub open spec fn lists_exactly(entries: Seq<(String, String)>, m: Map<Seq<char>, Seq<char>>) -> bool {
    &&& distinct_keys(entries)
    &&& forall|i: int|
        0 <= i < entries.len() ==> m.contains_key((#[trigger] entries[i]).0@) && m[entries[i].0@]
            == entries[i].1@
    &&& forall|k: Seq<char>| m.contains_key(k) ==> exists|i: int| 0 <= i < entries.len() && (#[trigger] entries[i]).0@ == k
}

impl KvMap {
    /// The keys are distinct, each is in the map, and each key of the map is
    /// listed.
    pub closed spec fn wf(&self) -> bool {
        &&& forall|i: int| 0 <= i < self.keys.len() ==> self.map@.contains_key(#[trigger] self.keys@[i]@)
        &&& forall|k: Seq<char>|
            self.map@.contains_key(k) ==> exists|i: int| 0 <= i < self.keys.len() && (#[trigger] self.keys@[i])@ == k
        &&& forall|i: int, j: int|
            0 <= i < j < self.keys.len() ==> (#[trigger] self.keys@[i])@ != (#[trigger] self.keys@[j])@
    }

    /// An empty map.
    pub fn new() -> (r: KvMap)
        ensures
            r.wf(),
            r@ == Map::<Seq<char>, Seq<char>>::empty(),
    {
        let r = KvMap { map: StringHashMap::new(), keys: Vec::new() };
        proof {
            assert(r@ =~= Map::<Seq<char>, Seq<char>>::empty());
        }
        r
    }

    /// Stores `value` under `key`, replacing what was there.
    pub fn insert(&mut self, key: String, value: String)
        requires
            old(self).wf(),
        ensures
            final(self).wf(),
            final(self)@ == old(self)@.insert(key@, value@),
    {
        if !self.map.contains_key(key.as_str()) {
            self.keys.push(key.clone());
            proof {
                assert(self.keys@[self.keys.len() - 1]@ == key@);
            }
        }
        self.map.insert(key, value);
        proof {
            assert forall|k: Seq<char>| self.map@.contains_key(k) implies exists|i: int|
                0 <= i < self.keys.len() && (#[trigger] self.keys@[i])@ == k by {
                if k != key@ {
                    assert(old(self).map@.contains_key(k));
                    let i = choose|i: int| 0 <= i < old(self).keys.len() && (#[trigger] old(self).keys@[i])@ == k;
                    assert(self.keys@[i] == old(self).keys@[i]);
                } else {
                    if old(self).map@.contains_key(k) {
                        let i = choose|i: int| 0 <= i < old(self).keys.len() && (#[trigger] old(self).keys@[i])@ == k;
                        assert(self.keys@[i] == old(self).keys@[i]);
                    } else {
                        assert(self.keys@[self.keys.len() - 1]@ == k);
                    }
                }
            }
            assert(self@ =~= old(self)@.insert(key@, value@));
        }
    }

    /// The value stored under `key`, if any.
    pub fn get(&self, key: &str) -> (r: Option<String>)
        ensures
            match r {
                Some(v) => lookup(self@, key@) == Some(v@),
                None => lookup(self@, key@) is None,
            },
    {
        match self.map.get(key) {
            Some(v) => Some(v.clone()),
            None => None,
        }
    }

    /// Every entry of the map, each key once, in the order the keys were first
    /// inserted.
    pub fn entries(&self) -> (r: Vec<(String, String)>)
        requires
            self.wf(),
        ensures
            lists_exactly(r@, self@),
    {
        let mut r: Vec<(String, String)> = Vec::new();
        let mut i: usize = 0;
        while i < self.keys.len()
            invariant
                self.wf(),
                0 <= i <= self.keys.len(),
                r@.len() == i,
                forall|j: int| 0 <= j < i ==> (#[trigger] r@[j]).0@ == self.keys@[j]@ && self@.contains_key(
                    r@[j].0@,
                ) && self@[r@[j].0@] == r@[j].1@,
            decreases self.keys.len() - i,
        {
            let k = &self.keys[i];
            proof {
                assert(self.map@.contains_key(self.keys@[i as int]@));
            }
            let v = match self.map.get(k.as_str()) {
                Some(v) => v.clone(),
                None => String::new(),
            };
            r.push((k.clone(), v));
            i = i + 1;
        }
        proof {
            assert forall|a: int, b: int| 0 <= a < b < r@.len() implies (#[trigger] r@[a]).0@ != (
            #[trigger] r@[b]).0@ by {
                assert(self.keys@[a]@ != self.keys@[b]@);
            }
            assert forall|k: Seq<char>| self@.contains_key(k) implies exists|j: int|
                0 <= j < r@.len() && (#[trigger] r@[j]).0@ == k by {
                assert(self.map@.contains_key(k));
                let j = choose|j: int| 0 <= j < self.keys.len() && (#[trigger] self.keys@[j])@ == k;
                assert(r@[j].0@ == k);
            }
        }
        r
    }
}

} // verus!
