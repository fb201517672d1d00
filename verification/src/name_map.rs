use vstd::prelude::*;

verus! {

/// What a map holds under a key, if anything.
pub open spec fn lookup<T>(m: Map<Seq<char>, T>, key: Seq<char>) -> Option<T> {
    if m.contains_key(key) {
        Some(m[key])
    } else {
        None
    }
}

/// The map that pairs each key with the value at the same position.
pub open spec fn pairs_map<T>(keys: Seq<Seq<char>>, vals: Seq<T>) -> Map<Seq<char>, T> {
    Map::new(|k: Seq<char>| keys.contains(k), |k: Seq<char>| vals[keys.index_of(k)])
}

/// A small map from names to values, kept in insertion order.
///
/// Its view is the mathematical map; `keys` and `vals` give the entries in
/// the order in which an index-based walk meets them.
pub struct NameMap<T> {
    names: Vec<String>,
    values: Vec<T>,
}

impl<T> View for NameMap<T> {
    type V = Map<Seq<char>, T>;

    open spec fn view(&self) -> Map<Seq<char>, T> {
        pairs_map(self.keys(), self.vals())
    }
}

impl<T> NameMap<T> {
    /// The names, in insertion order.
    pub closed spec fn keys(&self) -> Seq<Seq<char>> {
        Seq::new(self.names@.len(), |i: int| self.names@[i]@)
    }

    /// The values, each at the position of its name.
    pub closed spec fn vals(&self) -> Seq<T> {
        self.values@
    }

    /// Every name has one value and occurs once.
    pub open spec fn wf(&self) -> bool {
        self.keys().len() == self.vals().len() && self.keys().no_duplicates()
    }

    /// The entry at a position is the map's entry for that name.
    pub proof fn lemma_entry(&self, i: int)
        requires
            self.wf(),
            0 <= i < self.keys().len(),
        ensures
            self@.contains_key(self.keys()[i]),
            self@[self.keys()[i]] == self.vals()[i],
            lookup(self@, self.keys()[i]) == Some(self.vals()[i]),
    {
        let keys = self.keys();
        assert(keys.contains(keys[i]));
        assert(keys.index_of(keys[i]) == i);
    }

    /// A name is in the map exactly when it is among the keys.
    pub proof fn lemma_domain(&self, key: Seq<char>)
        ensures
            self@.contains_key(key) == self.keys().contains(key),
            (lookup(self@, key) is None) == !self.keys().contains(key),
    {
    }

    pub fn new() -> (m: Self)
        ensures
            m.wf(),
            m.keys() == Seq::<Seq<char>>::empty(),
            m.vals() == Seq::<T>::empty(),
            m@ == Map::<Seq<char>, T>::empty(),
    {
        let m = NameMap { names: Vec::new(), values: Vec::new() };
        assert(m.keys() =~= Seq::<Seq<char>>::empty());
        assert(m@ =~= Map::<Seq<char>, T>::empty());
        m
    }

    pub fn len(&self) -> (n: usize)
        requires
            self.wf(),
        ensures
            n == self.keys().len(),
    {
        self.names.len()
    }

    pub fn key_at(&self, i: usize) -> (k: &String)
        requires
            self.wf(),
            i < self.keys().len(),
        ensures
            k@ == self.keys()[i as int],
    {
        &self.names[i]
    }

    /// Where a name stands among the keys.
    pub fn position(&self, name: &String) -> (r: Option<usize>)
        requires
            self.wf(),
        ensures
            match r {
                Some(i) => i < self.keys().len() && self.keys()[i as int] == name@,
                None => !self.keys().contains(name@),
            },
    {
        let mut i: usize = 0;
        while i < self.names.len()
            invariant
                i <= self.names.len(),
                self.keys().len() == self.names.len(),
                forall|j: int| 0 <= j < i ==> self.keys()[j] != name@,
            decreases self.names.len() - i,
        {
            if self.names[i] == *name {
                return Some(i);
            }
            i += 1;
        }
        None
    }

    pub fn contains(&self, name: &String) -> (r: bool)
        requires
            self.wf(),
        ensures
            r == self@.contains_key(name@),
    {
        self.position(name).is_some()
    }

    /// Replaces the value at a position and leaves the names as they are.
    pub fn set_value_at(&mut self, i: usize, value: T)
        requires
            old(self).wf(),
            i < old(self).keys().len(),
        ensures
            final(self).wf(),
            final(self).keys() == old(self).keys(),
            final(self).vals() == old(self).vals().update(i as int, value),
            final(self)@ == old(self)@.insert(old(self).keys()[i as int], value),
    {
        self.values.set(i, value);
        proof {
            let keys = self.keys();
            assert(keys =~= old(self).keys());
            assert forall|k: Seq<char>| keys.contains(k) implies (#[trigger] self@[k]) == old(
                self,
            )@.insert(keys[i as int], value)[k] by {
                let j = keys.index_of(k);
                if k == keys[i as int] {
                    assert(j == i);
                } else {
                    assert(j != i);
                }
            }
            assert(self@ =~= old(self)@.insert(keys[i as int], value));
        }
    }

    /// Binds a name to a value: over the old value if the name is there,
    /// as a new last entry if it is not.
    pub fn set(&mut self, name: String, value: T)
        requires
            old(self).wf(),
        ensures
            final(self).wf(),
            final(self)@ == old(self)@.insert(name@, value),
            old(self).keys().contains(name@) ==> final(self).keys() == old(self).keys()
                && final(self).vals() == old(self).vals().update(
                old(self).keys().index_of(name@),
                value,
            ),
            !old(self).keys().contains(name@) ==> final(self).keys() == old(self).keys().push(
                name@,
            ) && final(self).vals() == old(self).vals().push(value),
    {
        match self.position(&name) {
            Some(i) => {
                proof {
                    assert(old(self).keys().contains(name@));
                    assert(old(self).keys().index_of(name@) == i);
                }
                self.set_value_at(i, value);
            },
            None => {
                self.names.push(name);
                self.values.push(value);
                proof {
                    let keys = self.keys();
                    let old_keys = old(self).keys();
                    assert(keys =~= old_keys.push(name@));
                    assert forall|k: Seq<char>| keys.contains(k) implies (#[trigger] self@[k])
                        == old(self)@.insert(name@, value)[k] by {
                        let j = keys.index_of(k);
                        if k == name@ {
                            assert(keys[old_keys.len() as int] == name@);
                            assert(j == old_keys.len());
                        } else {
                            assert(j < old_keys.len());
                            assert(old_keys[j] == k);
                            assert(old_keys.contains(k));
                            assert(old_keys.index_of(k) == j);
                        }
                    }
                    assert forall|k: Seq<char>| keys.contains(k) == (old_keys.contains(k) || k
                        == name@) by {
                        if old_keys.contains(k) {
                            let j = old_keys.index_of(k);
                            assert(keys[j] == k);
                        }
                        if k == name@ {
                            assert(keys[old_keys.len() as int] == k);
                        }
                    }
                    assert(self@ =~= old(self)@.insert(name@, value));
                }
            },
        }
    }

    /// Takes a name out of the map; the other entries keep their order.
    pub fn remove(&mut self, name: &String)
        requires
            old(self).wf(),
        ensures
            final(self).wf(),
            final(self)@ == old(self)@.remove(name@),
    {
        match self.position(name) {
            Some(i) => {
                self.names.remove(i);
                self.values.remove(i);
                proof {
                    let keys = self.keys();
                    let old_keys = old(self).keys();
                    assert(keys =~= old_keys.remove(i as int));
                    assert forall|k: Seq<char>| keys.contains(k) == (old_keys.contains(k) && k
                        != name@) by {
                        if keys.contains(k) {
                            let j = keys.index_of(k);
                            if j < i {
                                assert(old_keys[j] == k);
                            } else {
                                assert(old_keys[j + 1] == k);
                            }
                        }
                        if old_keys.contains(k) && k != name@ {
                            let j = old_keys.index_of(k);
                            if j < i {
                                assert(keys[j] == k);
                            } else {
                                assert(keys[j - 1] == k);
                            }
                        }
                    }
                    assert forall|k: Seq<char>| keys.contains(k) implies (#[trigger] self@[k])
                        == old(self)@[k] by {
                        let j = keys.index_of(k);
                        if j < i {
                            assert(old_keys[j] == k);
                            assert(old_keys.index_of(k) == j);
                        } else {
                            assert(old_keys[j + 1] == k);
                            assert(old_keys.index_of(k) == j + 1);
                        }
                    }
                    assert(self@ =~= old(self)@.remove(name@));
                }
            },
            None => {
                proof {
                    assert(self@ =~= old(self)@.remove(name@));
                }
            },
        }
    }
}

impl<T: Copy> NameMap<T> {
    /// A map with the same entries in the same order.
    pub fn copy(&self) -> (m: Self)
        requires
            self.wf(),
        ensures
            m.wf(),
            m.keys() == self.keys(),
            m.vals() == self.vals(),
            m@ == self@,
    {
        let mut names: Vec<String> = Vec::new();
        let mut values: Vec<T> = Vec::new();
        let mut i: usize = 0;
        while i < self.names.len()
            invariant
                i <= self.names.len(),
                self.names@.len() == self.values@.len(),
                names@.len() == i,
                values@.len() == i,
                forall|j: int| 0 <= j < i ==> names@[j]@ == self.names@[j]@,
                forall|j: int| 0 <= j < i ==> values@[j] == self.values@[j],
            decreases self.names.len() - i,
        {
            names.push(self.names[i].clone());
            values.push(self.values[i]);
            i += 1;
        }
        let m = NameMap { names, values };
        proof {
            assert(m.keys() =~= self.keys());
            assert(m.vals() =~= self.vals());
        }
        m
    }

    pub fn value_at(&self, i: usize) -> (v: T)
        requires
            self.wf(),
            i < self.keys().len(),
        ensures
            v == self.vals()[i as int],
    {
        self.values[i]
    }

    /// The value bound to a name, if the name is bound.
    pub fn get(&self, name: &String) -> (r: Option<T>)
        requires
            self.wf(),
        ensures
            r == lookup(self@, name@),
    {
        match self.position(name) {
            Some(i) => {
                proof {
                    self.lemma_entry(i as int);
                }
                Some(self.values[i])
            },
            None => None,
        }
    }
}

} // verus!
