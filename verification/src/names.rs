//! A directory from names to values.

use crate::text::{
    ascending, before, lemma_before_irreflexive, lemma_before_total, lemma_before_transitive,
    lemma_sorted, lists, sorted, stands_before,
};
use vstd::prelude::*;

verus! {

/// A finite map keyed by name, kept in the order of a dictionary, in
/// which each name occurs once. Its view is the map from each name to
/// the view of its value.
pub struct NameMap<V> {
    names: Vec<String>,
    values: Vec<V>,
}

impl<V: View> NameMap<V> {
    /// The stored names.
    spec fn keys(&self) -> Seq<Seq<char>> {
        Seq::new(self.names@.len(), |i: int| self.names@[i]@)
    }

    /// Each stored name has a value, and the names stand in the order of a
    /// dictionary.
    pub closed spec fn wf(&self) -> bool {
        &&& self.names@.len() == self.values@.len()
        &&& ascending(self.keys())
    }

    /// Whether `name` is stored at slot `i`.
    spec fn at(&self, name: Seq<char>, i: int) -> bool {
        0 <= i < self.names@.len() && self.names@[i]@ == name
    }

    /// The slot that stores `name`.
    spec fn slot(&self, name: Seq<char>) -> int {
        choose|i: int| self.at(name, i)
    }

    /// A name is stored at one slot only, and its value stands there.
    proof fn lemma_slot(&self, name: Seq<char>, i: int)
        requires
            self.wf(),
            self.at(name, i),
        ensures
            self.slot(name) == i,
            self@.contains_key(name),
            self@[name] == self.values@[i]@,
    {
        let k = self.slot(name);
        assert(self.at(name, k));
        lemma_before_irreflexive(name);
        if k < i {
            assert(before(self.keys()[k], self.keys()[i]));
        }
        if i < k {
            assert(before(self.keys()[i], self.keys()[k]));
        }
    }

    /// The stored names list the names of the map.
    proof fn lemma_keys(&self)
        requires
            self.wf(),
        ensures
            lists(self@.dom(), self.keys()),
            sorted(self@.dom()) == self.keys(),
    {
        assert forall|name: Seq<char>| self.keys().to_set().contains(name) <==> self@.dom().contains(
            name,
        ) by {
            if self.keys().to_set().contains(name) {
                let i = choose|i: int| 0 <= i < self.keys().len() && self.keys()[i] == name;
                assert(self.at(name, i));
            }
            if self@.dom().contains(name) {
                let i = self.slot(name);
                assert(self.at(name, i));
                assert(self.keys()[i] == name);
            }
        }
        assert(self.keys().to_set() =~= self@.dom());
        lemma_sorted(self@.dom(), self.keys());
    }

    /// The values in the order of their names, each by its view.
    pub closed spec fn listed(&self) -> Seq<V::V> {
        Seq::new(self.values@.len(), |i: int| self.values@[i]@)
    }

    /// The listing holds the value of each name of the map, in the order
    /// of the names.
    pub proof fn lemma_listed(&self)
        requires
            self.wf(),
        ensures
            self.listed().len() == sorted(self@.dom()).len(),
            forall|i: int|
                0 <= i < self.listed().len() ==> self@.contains_key(
                    #[trigger] sorted(self@.dom())[i],
                ) && self@[sorted(self@.dom())[i]] == self.listed()[i],
    {
        self.lemma_keys();
        assert forall|i: int| 0 <= i < self.listed().len() implies self@.contains_key(
            #[trigger] sorted(self@.dom())[i],
        ) && self@[sorted(self@.dom())[i]] == self.listed()[i] by {
            assert(self.at(self.keys()[i], i));
            self.lemma_slot(self.keys()[i], i);
        }
    }

    /// An empty directory.
    pub fn new() -> (m: Self)
        ensures
            m.wf(),
            m@ == Map::<Seq<char>, V::V>::empty(),
    {
        let m = NameMap { names: Vec::new(), values: Vec::new() };
        assert(m@ =~= Map::<Seq<char>, V::V>::empty());
        m
    }

    /// The slot of `name`, if it is stored.
    fn find(&self, name: &String) -> (r: Option<usize>)
        requires
            self.wf(),
        ensures
            match r {
                Some(i) => self.at(name@, i as int) && self.slot(name@) == i,
                None => forall|i: int| !self.at(name@, i),
            },
    {
        let mut i: usize = 0;
        while i < self.names.len()
            invariant
                self.wf(),
                i <= self.names@.len(),
                forall|j: int| 0 <= j < i ==> self.names@[j]@ != name@,
            decreases self.names@.len() - i,
        {
            if self.names[i] == *name {
                proof {
                    self.lemma_slot(name@, i as int);
                }
                return Some(i);
            }
            i = i + 1;
        }
        None
    }

    /// Whether `name` has a value.
    pub fn contains(&self, name: &String) -> (b: bool)
        requires
            self.wf(),
        ensures
            b == self@.contains_key(name@),
    {
        self.find(name).is_some()
    }

    /// The value of `name`, if it has one.
    pub fn get(&self, name: &String) -> (r: Option<&V>)
        requires
            self.wf(),
        ensures
            match r {
                Some(v) => self@.contains_key(name@) && self@[name@] == v@,
                None => !self@.contains_key(name@),
            },
    {
        match self.find(name) {
            Some(i) => {
                proof {
                    self.lemma_slot(name@, i as int);
                }
                Some(&self.values[i])
            },
            None => None,
        }
    }

    /// The number of stored names that stand before `name`, which is not
    /// stored.
    fn place_for(&self, name: &String) -> (k: usize)
        requires
            self.wf(),
            forall|i: int| !self.at(name@, i),
        ensures
            k <= self.names@.len(),
            forall|i: int| 0 <= i < k ==> before(self.keys()[i], name@),
            forall|i: int| k <= i < self.names@.len() ==> before(name@, self.keys()[i]),
    {
        let mut k: usize = 0;
        while k < self.names.len() && stands_before(self.names[k].as_str(), name.as_str())
            invariant
                self.wf(),
                k <= self.names@.len(),
                forall|i: int| 0 <= i < k ==> before(self.keys()[i], name@),
            decreases self.names@.len() - k,
        {
            k = k + 1;
        }
        proof {
            assert forall|i: int| k <= i < self.names@.len() implies before(
                name@,
                self.keys()[i],
            ) by {
                let first = self.keys()[k as int];
                assert(!self.at(name@, k as int));
                lemma_before_total(first, name@);
                if i > k {
                    assert(before(self.keys()[k as int], self.keys()[i]));
                    lemma_before_transitive(name@, first, self.keys()[i]);
                }
            }
        }
        k
    }

    /// Gives `name` the value `value`, replacing the one it had.
    pub fn insert(&mut self, name: String, value: V)
        requires
            old(self).wf(),
        ensures
            final(self).wf(),
            final(self)@ == old(self)@.insert(name@, value@),
    {
        match self.find(&name) {
            Some(i) => {
                self.values[i] = value;
                proof {
                    assert(self.keys() =~= old(self).keys());
                    assert forall|n: Seq<char>, k: int| self.at(n, k) <==> old(self).at(n, k) by {}
                    self.lemma_slot(name@, i as int);
                    assert forall|n: Seq<char>| n != name@ implies (#[trigger] self@.contains_key(
                        n,
                    ) <==> old(self)@.contains_key(n)) && (self@.contains_key(n) ==> self@[n]
                        == old(self)@[n]) by {
                        if old(self)@.contains_key(n) {
                            let k = old(self).slot(n);
                            assert(old(self).at(n, k));
                            self.lemma_slot(n, k);
                        }
                    }
                    assert(self@ =~= old(self)@.insert(name@, value@));
                }
            },
            None => {
                let k = self.place_for(&name);
                self.names.insert(k, name);
                self.values.insert(k, value);
                proof {
                    // where slot `i` of the new storage came from
                    let from = |i: int| if i < k { i } else { i - 1 };
                    assert forall|i: int| 0 <= i < self.names@.len() && i != k implies self.keys()[i]
                        == old(self).keys()[from(i)] && self.values@[i] == old(self).values@[from(
                        i,
                    )] by {}
                    assert forall|i: int, j: int| 0 <= i < j < self.keys().len() implies before(
                        self.keys()[i],
                        self.keys()[j],
                    ) by {
                        if i != k && j != k {
                            assert(before(old(self).keys()[from(i)], old(self).keys()[from(j)]));
                        } else if i == k {
                            assert(before(name@, old(self).keys()[from(j)]));
                        } else {
                            assert(before(old(self).keys()[from(i)], name@));
                        }
                    }
                    assert(self.at(name@, k as int));
                    self.lemma_slot(name@, k as int);
                    assert forall|n: Seq<char>| n != name@ implies (#[trigger] self@.contains_key(
                        n,
                    ) <==> old(self)@.contains_key(n)) && (self@.contains_key(n) ==> self@[n]
                        == old(self)@[n]) by {
                        if old(self)@.contains_key(n) {
                            let a = old(self).slot(n);
                            assert(old(self).at(n, a));
                            old(self).lemma_slot(n, a);
                            let b = if a < k { a } else { a + 1 };
                            assert(self.keys()[b] == old(self).keys()[from(b)]);
                            assert(self.at(n, b));
                            self.lemma_slot(n, b);
                        }
                        if self@.contains_key(n) {
                            let b = self.slot(n);
                            assert(self.at(n, b));
                            self.lemma_slot(n, b);
                            assert(self.keys()[b] == old(self).keys()[from(b)]);
                            assert(old(self).at(n, from(b)));
                            old(self).lemma_slot(n, from(b));
                        }
                    }
                    assert(self@ =~= old(self)@.insert(name@, value@));
                }
            },
        }
    }

    /// Takes the value of `name` away, if it has one.
    pub fn remove(&mut self, name: &String)
        requires
            old(self).wf(),
        ensures
            final(self).wf(),
            final(self)@ == old(self)@.remove(name@),
    {
        match self.find(name) {
            Some(i) => {
                self.names.remove(i);
                self.values.remove(i);
                proof {
                    // where slot `k` of the new storage came from
                    let from = |k: int| if k < i { k } else { k + 1 };
                    assert forall|k: int| 0 <= k < self.names@.len() implies self.keys()[k]
                        == old(self).keys()[from(k)] && self.values@[k] == old(self).values@[from(
                        k,
                    )] by {}
                    assert forall|a: int, b: int| 0 <= a < b < self.keys().len() implies before(
                        self.keys()[a],
                        self.keys()[b],
                    ) by {
                        assert(before(old(self).keys()[from(a)], old(self).keys()[from(b)]));
                    }
                    assert forall|n: Seq<char>| n != name@ implies (#[trigger] self@.contains_key(
                        n,
                    ) <==> old(self)@.contains_key(n)) && (self@.contains_key(n) ==> self@[n]
                        == old(self)@[n]) by {
                        if old(self)@.contains_key(n) {
                            let a = old(self).slot(n);
                            assert(old(self).at(n, a));
                            old(self).lemma_slot(n, a);
                            let b = if a < i { a } else { a - 1 };
                            assert(self.keys()[b] == old(self).keys()[from(b)]);
                            assert(self.at(n, b));
                            self.lemma_slot(n, b);
                        }
                        if self@.contains_key(n) {
                            let b = self.slot(n);
                            assert(self.at(n, b));
                            self.lemma_slot(n, b);
                            assert(self.keys()[b] == old(self).keys()[from(b)]);
                            assert(old(self).at(n, from(b)));
                            old(self).lemma_slot(n, from(b));
                        }
                    }
                    assert(!self@.contains_key(name@)) by {
                        if self@.contains_key(name@) {
                            let b = self.slot(name@);
                            assert(self.at(name@, b));
                            assert(self.keys()[b] == old(self).keys()[from(b)]);
                            assert(old(self).at(name@, from(b)));
                            old(self).lemma_slot(name@, from(b));
                        }
                    }
                    assert(self@ =~= old(self)@.remove(name@));
                }
            },
            None => {
                proof {
                    assert(self@ =~= old(self)@.remove(name@));
                }
            },
        }
    }

    /// The number of names.
    pub fn len(&self) -> (n: usize)
        requires
            self.wf(),
        ensures
            n == self.listed().len(),
    {
        self.values.len()
    }

    /// The value at place `i` of the listing.
    pub fn value_at(&self, i: usize) -> (v: &V)
        requires
            self.wf(),
            i < self.listed().len(),
        ensures
            v@ == self.listed()[i as int],
    {
        &self.values[i]
    }
}

impl<V: View> View for NameMap<V> {
    type V = Map<Seq<char>, V::V>;

    closed spec fn view(&self) -> Map<Seq<char>, V::V> {
        Map::new(
            |name: Seq<char>| exists|i: int| self.at(name, i),
            |name: Seq<char>| self.values@[self.slot(name)]@,
        )
    }
}

} // verus!
