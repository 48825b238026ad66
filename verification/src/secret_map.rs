use vstd::prelude::*;

verus! {

/// The mathematical mapping held by a sequence of key-value entries; a later
/// entry overrides an earlier one with the same key.
pub open spec fn map_of_entries(s: Seq<(String, String)>) -> Map<Seq<char>, Seq<char>>
    decreases s.len(),
{
    if s.len() == 0 {
        Map::empty()
    } else {
        map_of_entries(s.drop_last()).insert(s.last().0@, s.last().1@)
    }
}

/// The keys of the entries are pairwise distinct.
pub open spec fn unique_keys(s: Seq<(String, String)>) -> bool {
    forall|i: int, j: int| 0 <= i < j < s.len() ==> s[i].0@ != s[j].0@
}

/// `ks` lists exactly the keys of `m`, each one once (in no promised order).
pub open spec fn lists_keys_of(ks: Seq<String>, m: Map<Seq<char>, Seq<char>>) -> bool {
    &&& forall|j: int| 0 <= j < ks.len() ==> m.contains_key(#[trigger] ks[j]@)
    &&& forall|k: Seq<char>|
        m.contains_key(k) ==> exists|j: int| 0 <= j < ks.len() && #[trigger] ks[j]@ == k
    &&& forall|j1: int, j2: int| 0 <= j1 < j2 < ks.len() ==> ks[j1]@ != ks[j2]@
}

/// The in-memory mapping from secret names to secret values, held as an
/// association list whose keys are pairwise distinct. Its view is the
/// mathematical map it represents.
pub struct SecretMap {
    pub(crate) entries: Vec<(String, String)>,
}

impl View for SecretMap {
    type V = Map<Seq<char>, Seq<char>>;

    closed spec fn view(&self) -> Map<Seq<char>, Seq<char>> {
        map_of_entries(self.entries@)
    }
}

/// An entry's key is in the map, bound to that entry's value.
proof fn lemma_entry_value(s: Seq<(String, String)>, i: int)
    requires
        unique_keys(s),
        0 <= i < s.len(),
    ensures
        map_of_entries(s).contains_key(s[i].0@),
        map_of_entries(s)[s[i].0@] == s[i].1@,
    decreases s.len(),
{
    if i == s.len() - 1 {
        assert(s.last() == s[i]);
    } else {
        assert(s.drop_last()[i] == s[i]);
        assert(s[i].0@ != s.last().0@);
        lemma_entry_value(s.drop_last(), i);
    }
}

/// A key under no entry is not in the map.
proof fn lemma_absent_key(s: Seq<(String, String)>, k: Seq<char>)
    requires
        forall|i: int| 0 <= i < s.len() ==> s[i].0@ != k,
    ensures
        !map_of_entries(s).contains_key(k),
    decreases s.len(),
{
    if s.len() > 0 {
        assert(forall|i: int| 0 <= i < s.drop_last().len() ==> s.drop_last()[i] == s[i]);
        lemma_absent_key(s.drop_last(), k);
    }
}

/// A key in the map is the key of some entry.
proof fn lemma_key_has_entry(s: Seq<(String, String)>, k: Seq<char>)
    requires
        map_of_entries(s).contains_key(k),
    ensures
        exists|i: int| 0 <= i < s.len() && s[i].0@ == k,
    decreases s.len(),
{
    if s.last().0@ == k {
        assert(s[s.len() - 1].0@ == k);
    } else {
        lemma_key_has_entry(s.drop_last(), k);
        let i = choose|i: int| 0 <= i < s.drop_last().len() && s.drop_last()[i].0@ == k;
        assert(s[i].0@ == k);
    }
}

/// Removing the entry at `i` removes exactly its key from the map.
proof fn lemma_remove_entry(s: Seq<(String, String)>, i: int)
    requires
        unique_keys(s),
        0 <= i < s.len(),
    ensures
        unique_keys(s.remove(i)),
        map_of_entries(s.remove(i)) == map_of_entries(s).remove(s[i].0@),
    decreases s.len(),
{
    let k = s[i].0@;
    let t = s.remove(i);
    assert(unique_keys(t)) by {
        assert forall|a: int, b: int| 0 <= a < b < t.len() implies t[a].0@ != t[b].0@ by {
            let a0: int = if a < i { a } else { a + 1 };
            let b0: int = if b < i { b } else { b + 1 };
            assert(t[a] == s[a0]);
            assert(t[b] == s[b0]);
        }
    }
    if i == s.len() - 1 {
        assert(t =~= s.drop_last());
        assert(forall|j: int| 0 <= j < s.drop_last().len() ==> s.drop_last()[j] == s[j]);
        lemma_absent_key(s.drop_last(), k);
        assert(map_of_entries(t) =~= map_of_entries(s).remove(k));
    } else {
        assert(t.last() == s.last());
        assert(t.drop_last() =~= s.drop_last().remove(i));
        assert(forall|j: int| 0 <= j < s.drop_last().len() ==> s.drop_last()[j] == s[j]);
        assert(s.drop_last()[i] == s[i]);
        lemma_remove_entry(s.drop_last(), i);
        assert(k != s.last().0@);
        assert(map_of_entries(t) == map_of_entries(s.drop_last()).remove(k).insert(
            s.last().0@,
            s.last().1@,
        ));
        assert(map_of_entries(s.drop_last()).remove(k).insert(s.last().0@, s.last().1@)
            =~= map_of_entries(s.drop_last()).insert(s.last().0@, s.last().1@).remove(k));
    }
}

impl SecretMap {
    /// The keys are pairwise distinct; every operation preserves this.
    pub closed spec fn wf(&self) -> bool {
        unique_keys(self.entries@)
    }

    /// The empty mapping.
    pub fn empty() -> (r: SecretMap)
        ensures
            r.wf(),
            r@ == Map::<Seq<char>, Seq<char>>::empty(),
    {
        SecretMap { entries: Vec::new() }
    }

    /// Builds the mapping that a sequence of distinct-key entries represents.
    pub fn from_entries(entries: Vec<(String, String)>) -> (r: SecretMap)
        requires
            unique_keys(entries@),
        ensures
            r.wf(),
            r@ == map_of_entries(entries@),
    {
        SecretMap { entries }
    }

    /// The position of the entry holding `key`, if one does.
    fn find_index(&self, key: &String) -> (r: Option<usize>)
        ensures
            match r {
                Some(i) => i < self.entries@.len() && self.entries@[i as int].0@ == key@,
                None => forall|j: int| 0 <= j < self.entries@.len() ==> self.entries@[j].0@ != key@,
            },
    {
        let mut i: usize = 0;
        while i < self.entries.len()
            invariant
                i <= self.entries@.len(),
                forall|j: int| 0 <= j < i ==> self.entries@[j].0@ != key@,
            decreases self.entries@.len() - i,
        {
            if self.entries[i].0 == *key {
                return Some(i);
            }
            i = i + 1;
        }
        None
    }

    /// The value saved under `key`, if any.
    pub fn get<'a>(&'a self, key: &String) -> (r: Option<&'a String>)
        requires
            self.wf(),
        ensures
            match r {
                Some(v) => self@.contains_key(key@) && v@ == self@[key@],
                None => !self@.contains_key(key@),
            },
    {
        match self.find_index(key) {
            Some(i) => {
                proof {
                    lemma_entry_value(self.entries@, i as int);
                }
                Some(&self.entries[i].1)
            },
            None => {
                proof {
                    lemma_absent_key(self.entries@, key@);
                }
                None
            },
        }
    }

    /// Whether a value is saved under `key`.
    pub fn contains_key(&self, key: &String) -> (r: bool)
        requires
            self.wf(),
        ensures
            r == self@.contains_key(key@),
    {
        self.get(key).is_some()
    }

    /// Removes the entry for `key` and returns its value; without one, the
    /// mapping is unchanged.
    pub fn remove(&mut self, key: &String) -> (r: Option<String>)
        requires
            old(self).wf(),
        ensures
            final(self).wf(),
            !final(self)@.contains_key(key@),
            match r {
                Some(v) => old(self)@.contains_key(key@) && v@ == old(self)@[key@]
                    && final(self)@ == old(self)@.remove(key@),
                None => !old(self)@.contains_key(key@) && final(self)@ == old(self)@,
            },
    {
        match self.find_index(key) {
            Some(i) => {
                proof {
                    lemma_entry_value(self.entries@, i as int);
                    lemma_remove_entry(self.entries@, i as int);
                }
                let entry = self.entries.remove(i);
                Some(entry.1)
            },
            None => {
                proof {
                    lemma_absent_key(self.entries@, key@);
                }
                None
            },
        }
    }

    /// Binds `key` to `value`, replacing any previous binding.
    pub fn insert(&mut self, key: String, value: String)
        requires
            old(self).wf(),
        ensures
            final(self).wf(),
            final(self)@ == old(self)@.insert(key@, value@),
    {
        let ghost m0 = self@;
        let _ = self.remove(&key);
        let ghost mid = self.entries@;
        self.entries.push((key, value));
        proof {
            assert(self.entries@.drop_last() =~= mid);
            assert(self.entries@.last() == (key, value));
            assert forall|j: int| 0 <= j < mid.len() implies mid[j].0@ != key@ by {
                lemma_entry_value(mid, j);
            }
            assert(unique_keys(self.entries@)) by {
                assert forall|a: int, b: int|
                    0 <= a < b < self.entries@.len() implies self.entries@[a].0@
                    != self.entries@[b].0@ by {
                    if b < self.entries@.len() - 1 {
                        assert(self.entries@[a] == mid[a]);
                        assert(self.entries@[b] == mid[b]);
                    } else {
                        assert(self.entries@[a] == mid[a]);
                    }
                }
            }
            assert(self@ =~= m0.insert(key@, value@));
        }
    }

    /// All keys, each exactly once, in the held order.
    pub fn keys(&self) -> (r: Vec<String>)
        requires
            self.wf(),
        ensures
            lists_keys_of(r@, self@),
    {
        let mut r: Vec<String> = Vec::new();
        let mut i: usize = 0;
        while i < self.entries.len()
            invariant
                self.wf(),
                i <= self.entries@.len(),
                r@.len() == i,
                forall|j: int| 0 <= j < i ==> #[trigger] r@[j]@ == self.entries@[j].0@,
            decreases self.entries@.len() - i,
        {
            r.push(self.entries[i].0.clone());
            i = i + 1;
        }
        proof {
            assert forall|j: int| 0 <= j < r@.len() implies self@.contains_key(
                #[trigger] r@[j]@,
            ) by {
                lemma_entry_value(self.entries@, j);
            }
            assert forall|k: Seq<char>| self@.contains_key(k) implies exists|j: int|
                0 <= j < r@.len() && #[trigger] r@[j]@ == k by {
                lemma_key_has_entry(self.entries@, k);
                let i0 = choose|i0: int|
                    0 <= i0 < self.entries@.len() && self.entries@[i0].0@ == k;
                assert(r@[i0]@ == k);
            }
        }
        r
    }
}

} // verus!
