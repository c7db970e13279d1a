//! `NameMap`: a small map keyed by service, event or dependency names.

use vstd::prelude::*;

verus! {

/// An association list without duplicate keys, in insertion order.
pub struct NameMap<V> {
    pub entries: Vec<(String, V)>,
}

/// `i` is where `name` stands in `entries`.
pub open spec fn names_at<V>(entries: Seq<(String, V)>, i: int, name: Seq<char>) -> bool {
    0 <= i < entries.len() && entries[i].0@ == name
}

impl<V> View for NameMap<V> {
    type V = Map<Seq<char>, V>;

    open spec fn view(&self) -> Map<Seq<char>, V> {
        Map::new(
            |name: Seq<char>| exists|i: int| names_at(self.entries@, i, name),
            |name: Seq<char>|
                self.entries@[choose|i: int| names_at(self.entries@, i, name)].1,
        )
    }
}

impl<V> NameMap<V> {
    /// No name occurs twice.
    pub open spec fn wf(&self) -> bool {
        forall|i: int, j: int|
            #![trigger self.entries@[i], self.entries@[j]]
            0 <= i < self.entries@.len() && 0 <= j < self.entries@.len() && self.entries@[i].0@
                == self.entries@[j].0@ ==> i == j
    }

    /// The entry at position `i` is what the map holds under its name.
    pub proof fn lemma_entry(&self, i: int)
        requires
            self.wf(),
            0 <= i < self.entries@.len(),
        ensures
            self@.contains_key(self.entries@[i].0@),
            self@[self.entries@[i].0@] == self.entries@[i].1,
    {
        let name = self.entries@[i].0@;
        assert(names_at(self.entries@, i, name));
        let j = choose|j: int| names_at(self.entries@, j, name);
        assert(names_at(self.entries@, j, name));
        assert(self.entries@[i].0@ == self.entries@[j].0@);
    }

    pub fn new() -> (res: NameMap<V>)
        ensures
            res.wf(),
            res@ == Map::<Seq<char>, V>::empty(),
    {
        let res: NameMap<V> = NameMap { entries: Vec::new() };
        assert(res@ =~= Map::<Seq<char>, V>::empty());
        res
    }

    /// Position of `name`, if present.
    pub fn position(&self, name: &str) -> (res: Option<usize>)
        requires
            self.wf(),
        ensures
            match res {
                Some(i) => names_at(self.entries@, i as int, name@) && self@.contains_key(name@)
                    && self@[name@] == self.entries@[i as int].1,
                None => !self@.contains_key(name@),
            },
    {
        let key: String = name.to_owned();
        let mut i: usize = 0;
        while i < self.entries.len()
            invariant
                self.wf(),
                key@ == name@,
                i <= self.entries@.len(),
                forall|j: int| 0 <= j < i ==> (#[trigger] self.entries@[j]).0@ != name@,
            decreases self.entries@.len() - i,
        {
            if self.entries[i].0 == key {
                proof {
                    self.lemma_entry(i as int);
                }
                return Some(i);
            }
            i = i + 1;
        }
        None
    }

    pub fn contains(&self, name: &str) -> (res: bool)
        requires
            self.wf(),
        ensures
            res == self@.contains_key(name@),
    {
        self.position(name).is_some()
    }

    pub fn get(&self, name: &str) -> (res: Option<&V>)
        requires
            self.wf(),
        ensures
            match res {
                Some(value) => self@.contains_key(name@) && *value == self@[name@],
                None => !self@.contains_key(name@),
            },
    {
        match self.position(name) {
            Some(i) => Some(&self.entries[i].1),
            None => None,
        }
    }

    /// Bind `name` to `value`, replacing an earlier binding.
    pub fn insert(&mut self, name: &str, value: V)
        requires
            old(self).wf(),
        ensures
            final(self).wf(),
            final(self)@ == old(self)@.insert(name@, value),
    {
        let ghost before = *self;
        match self.position(name) {
            Some(i) => {
                self.entries[i].1 = value;
                proof {
                    assert(self.entries@ =~= before.entries@.update(
                        i as int,
                        (before.entries@[i as int].0, value),
                    ));
                    self.lemma_same_names(before, i as int, name@, value);
                }
            },
            None => {
                self.entries.push((name.to_owned(), value));
                proof {
                    let n = before.entries@.len();
                    assert(self.entries@[n as int].0@ == name@);
                    assert(self.entries@[n as int].1 == value);
                    assert forall|i: int, j: int|
                        #![trigger self.entries@[i], self.entries@[j]]
                        0 <= i < self.entries@.len() && 0 <= j < self.entries@.len()
                            && self.entries@[i].0@ == self.entries@[j].0@ implies i == j by {
                        if i < n && j == n {
                            assert(names_at(before.entries@, i, name@));
                        }
                        if j < n && i == n {
                            assert(names_at(before.entries@, j, name@));
                        }
                        if i < n && j < n {
                            assert(before.entries@[i].0@ == before.entries@[j].0@);
                        }
                    }
                    assert forall|k: Seq<char>| #[trigger]
                        self@.contains_key(k) == before@.insert(name@, value).contains_key(k) by {
                        if before@.contains_key(k) {
                            let i = choose|i: int| names_at(before.entries@, i, k);
                            assert(names_at(self.entries@, i, k));
                        }
                        if k == name@ {
                            assert(names_at(self.entries@, n as int, k));
                        }
                        if self@.contains_key(k) {
                            let i = choose|i: int| names_at(self.entries@, i, k);
                            if i < n {
                                assert(names_at(before.entries@, i, k));
                            }
                        }
                    }
                    assert forall|k: Seq<char>| #[trigger] self@.contains_key(k) implies self@[k]
                        == before@.insert(name@, value)[k] by {
                        let i = choose|i: int| names_at(self.entries@, i, k);
                        self.lemma_entry(i);
                        if i < n {
                            before.lemma_entry(i);
                        }
                    }
                    assert(self@ =~= before@.insert(name@, value));
                }
            },
        }
    }

    proof fn lemma_same_names(self, before: NameMap<V>, at: int, name: Seq<char>, value: V)
        requires
            before.wf(),
            names_at(before.entries@, at, name),
            self.entries@ == before.entries@.update(at, (before.entries@[at].0, value)),
        ensures
            self.wf(),
            self@ == before@.insert(name, value),
    {
        assert forall|i: int, j: int|
            #![trigger self.entries@[i], self.entries@[j]]
            0 <= i < self.entries@.len() && 0 <= j < self.entries@.len() && self.entries@[i].0@
                == self.entries@[j].0@ implies i == j by {
            assert(before.entries@[i].0@ == before.entries@[j].0@);
        }
        assert forall|k: Seq<char>| #[trigger]
            self@.contains_key(k) == before@.insert(name, value).contains_key(k) by {
            if self@.contains_key(k) {
                let i = choose|i: int| names_at(self.entries@, i, k);
                assert(names_at(before.entries@, i, k));
            }
            if before@.contains_key(k) {
                let i = choose|i: int| names_at(before.entries@, i, k);
                assert(names_at(self.entries@, i, k));
            }
            if k == name {
                assert(names_at(self.entries@, at, k));
            }
        }
        assert forall|k: Seq<char>| #[trigger] self@.contains_key(k) implies self@[k]
            == before@.insert(name, value)[k] by {
            let i = choose|i: int| names_at(self.entries@, i, k);
            self.lemma_entry(i);
            before.lemma_entry(i);
            if i != at {
                assert(before.entries@[i].0@ != before.entries@[at].0@);
            }
        }
        assert(self@ =~= before@.insert(name, value));
    }

    /// Drop the binding of `name`, handing its value out.
    pub fn remove(&mut self, name: &str) -> (res: Option<V>)
        requires
            old(self).wf(),
        ensures
            final(self).wf(),
            final(self)@ == old(self)@.remove(name@),
            match res {
                Some(value) => old(self)@.contains_key(name@) && value == old(self)@[name@],
                None => !old(self)@.contains_key(name@),
            },
    {
        let ghost before = *self;
        match self.position(name) {
            Some(at) => {
                let (_, value) = self.entries.remove(at);
                proof {
                    let a = at as int;
                    assert(self.entries@ =~= before.entries@.remove(a));
                    assert forall|i: int, j: int|
                        #![trigger self.entries@[i], self.entries@[j]]
                        0 <= i < self.entries@.len() && 0 <= j < self.entries@.len()
                            && self.entries@[i].0@ == self.entries@[j].0@ implies i == j by {
                        let p = if i < a { i } else { i + 1 };
                        let q = if j < a { j } else { j + 1 };
                        assert(before.entries@[p].0@ == before.entries@[q].0@);
                    }
                    assert forall|k: Seq<char>| #[trigger]
                        self@.contains_key(k) == before@.remove(name@).contains_key(k) by {
                        if self@.contains_key(k) {
                            let i = choose|i: int| names_at(self.entries@, i, k);
                            let p = if i < a { i } else { i + 1 };
                            assert(names_at(before.entries@, p, k));
                            assert(before.entries@[p].0@ == k);
                            assert(before.entries@[a].0@ == name@);
                        }
                        if before@.contains_key(k) && k != name@ {
                            let i = choose|i: int| names_at(before.entries@, i, k);
                            let p = if i < a { i } else { i - 1 };
                            assert(names_at(self.entries@, p, k));
                        }
                    }
                    assert forall|k: Seq<char>| #[trigger] self@.contains_key(k) implies self@[k]
                        == before@.remove(name@)[k] by {
                        let i = choose|i: int| names_at(self.entries@, i, k);
                        let p = if i < a { i } else { i + 1 };
                        self.lemma_entry(i);
                        before.lemma_entry(p);
                    }
                    assert(self@ =~= before@.remove(name@));
                }
                Some(value)
            },
            None => {
                proof {
                    assert(self@ =~= before@.remove(name@));
                }
                None
            },
        }
    }

    /// Drop every binding.
    pub fn clear(&mut self)
        ensures
            final(self).wf(),
            final(self)@ == Map::<Seq<char>, V>::empty(),
    {
        self.entries.clear();
        assert(self@ =~= Map::<Seq<char>, V>::empty());
    }
}

} // verus!
