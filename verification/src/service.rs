//! The service store: implementations keyed by service name and isolation
//! label.
//!
//! Every context resolves a name to one label through its scope chain, so
//! that different subtrees can host independent implementations of the same
//! service without touching their parent scopes.

use vstd::prelude::*;

verus! {

/// One implementation of a service.
#[derive(Debug, Clone, Copy, PartialEq, Eq, Structural)]
pub struct ServiceImpl {
    /// The provided value, by number; a placeholder for computed entries.
    pub value: u64,
    pub provider_uid: u64,
    /// Availability predicate consulted for dependents, by number.
    pub check: Option<u64>,
    /// Producer of a computed service, by number.
    pub compute: Option<u64>,
}

/// One entry of the store.
pub struct ServiceEntry {
    pub name: String,
    pub label: u64,
    pub service: ServiceImpl,
}

/// Shared service store.
pub struct ReflectStore {
    pub entries: Vec<ServiceEntry>,
}

/// Implementations by service name and isolation label.
pub type Services = Map<(Seq<char>, u64), ServiceImpl>;

/// `i` is where the entry of `key` stands.
pub open spec fn entry_at(entries: Seq<ServiceEntry>, i: int, key: (Seq<char>, u64)) -> bool {
    0 <= i < entries.len() && entries[i].name@ == key.0 && entries[i].label == key.1
}

/// `uid` provides the service `key`.
pub open spec fn provides(services: Services, uid: u64, key: (Seq<char>, u64)) -> bool {
    services.contains_key(key) && services[key].provider_uid == uid
}

/// What a list of names and labels says.
pub open spec fn keys_view(keys: Seq<(String, u64)>) -> Seq<(Seq<char>, u64)> {
    keys.map_values(|key: (String, u64)| (key.0@, key.1))
}

impl View for ReflectStore {
    type V = Services;

    open spec fn view(&self) -> Services {
        Map::new(
            |key: (Seq<char>, u64)| exists|i: int| entry_at(self.entries@, i, key),
            |key: (Seq<char>, u64)|
                self.entries@[choose|i: int| entry_at(self.entries@, i, key)].service,
        )
    }
}

impl ReflectStore {
    /// No scope has two implementations of a service.
    pub open spec fn wf(&self) -> bool {
        forall|i: int, j: int|
            #![trigger self.entries@[i], self.entries@[j]]
            0 <= i < self.entries@.len() && 0 <= j < self.entries@.len() && self.entries@[i].name@
                == self.entries@[j].name@ && self.entries@[i].label == self.entries@[j].label ==> i
                == j
    }

    pub proof fn lemma_entry(&self, i: int)
        requires
            self.wf(),
            0 <= i < self.entries@.len(),
        ensures
            self@.contains_key((self.entries@[i].name@, self.entries@[i].label)),
            self@[(self.entries@[i].name@, self.entries@[i].label)] == self.entries@[i].service,
    {
        let key = (self.entries@[i].name@, self.entries@[i].label);
        assert(entry_at(self.entries@, i, key));
        let j = choose|j: int| entry_at(self.entries@, j, key);
        assert(entry_at(self.entries@, j, key));
        assert(self.entries@[i].name@ == self.entries@[j].name@);
    }

    pub fn new() -> (res: ReflectStore)
        ensures
            res.wf(),
            res@ == Services::empty(),
    {
        let res: ReflectStore = ReflectStore { entries: Vec::new() };
        assert(res@ =~= Services::empty());
        res
    }

    /// Position of the implementation of `name` under `label`.
    fn position(&self, name: &str, label: u64) -> (res: Option<usize>)
        requires
            self.wf(),
        ensures
            match res {
                Some(i) => entry_at(self.entries@, i as int, (name@, label)) && self@.contains_key(
                    (name@, label),
                ) && self@[(name@, label)] == self.entries@[i as int].service,
                None => !self@.contains_key((name@, label)),
            },
    {
        let key: String = name.to_owned();
        let mut i: usize = 0;
        while i < self.entries.len()
            invariant
                self.wf(),
                key@ == name@,
                i <= self.entries@.len(),
                forall|j: int|
                    0 <= j < i ==> (#[trigger] self.entries@[j]).name@ != name@
                        || self.entries@[j].label != label,
            decreases self.entries@.len() - i,
        {
            if self.entries[i].label == label && self.entries[i].name == key {
                proof {
                    self.lemma_entry(i as int);
                }
                return Some(i);
            }
            i = i + 1;
        }
        None
    }

    /// The implementation of `name` under `label`.
    pub fn get(&self, name: &str, label: u64) -> (res: Option<ServiceImpl>)
        requires
            self.wf(),
        ensures
            match res {
                Some(service) => self@.contains_key((name@, label)) && service == self@[(
                    name@,
                    label,
                )],
                None => !self@.contains_key((name@, label)),
            },
    {
        match self.position(name, label) {
            Some(i) => Some(self.entries[i].service),
            None => None,
        }
    }

    /// Register an implementation under a label that has none yet.
    pub fn add(&mut self, name: &str, label: u64, service: ServiceImpl)
        requires
            old(self).wf(),
            !old(self)@.contains_key((name@, label)),
        ensures
            final(self).wf(),
            final(self)@ == old(self)@.insert((name@, label), service),
    {
        let ghost before = *self;
        self.entries.push(ServiceEntry { name: name.to_owned(), label, service });
        proof {
            let n = before.entries@.len();
            let key = (name@, label);
            assert(self.entries@[n as int].name@ == name@);
            assert forall|i: int, j: int|
                #![trigger self.entries@[i], self.entries@[j]]
                0 <= i < self.entries@.len() && 0 <= j < self.entries@.len()
                    && self.entries@[i].name@ == self.entries@[j].name@ && self.entries@[i].label
                    == self.entries@[j].label implies i == j by {
                if i < n && j == n {
                    assert(entry_at(before.entries@, i, key));
                }
                if j < n && i == n {
                    assert(entry_at(before.entries@, j, key));
                }
                if i < n && j < n {
                    assert(before.entries@[i].name@ == before.entries@[j].name@);
                }
            }
            assert forall|k: (Seq<char>, u64)| #[trigger]
                self@.contains_key(k) == before@.insert(key, service).contains_key(k) by {
                if before@.contains_key(k) {
                    let i = choose|i: int| entry_at(before.entries@, i, k);
                    assert(entry_at(self.entries@, i, k));
                }
                if k == key {
                    assert(entry_at(self.entries@, n as int, k));
                }
                if self@.contains_key(k) {
                    let i = choose|i: int| entry_at(self.entries@, i, k);
                    if i < n {
                        assert(entry_at(before.entries@, i, k));
                    }
                }
            }
            assert forall|k: (Seq<char>, u64)| #[trigger] self@.contains_key(k) implies self@[k]
                == before@.insert(key, service)[k] by {
                let i = choose|i: int| entry_at(self.entries@, i, k);
                self.lemma_entry(i);
                if i < n {
                    before.lemma_entry(i);
                    assert(self.entries@[i] == before.entries@[i]);
                }
            }
            assert(self@ =~= before@.insert(key, service));
        }
    }

    /// Drop the implementation of `name` under `label`, if there is one.
    pub fn remove(&mut self, name: &str, label: u64)
        requires
            old(self).wf(),
        ensures
            final(self).wf(),
            final(self)@ == old(self)@.remove((name@, label)),
    {
        let ghost before = *self;
        let ghost key = (name@, label);
        if let Some(at) = self.position(name, label) {
            self.entries.remove(at);
            proof {
                let a = at as int;
                assert(self.entries@ =~= before.entries@.remove(a));
                assert forall|i: int, j: int|
                    #![trigger self.entries@[i], self.entries@[j]]
                    0 <= i < self.entries@.len() && 0 <= j < self.entries@.len()
                        && self.entries@[i].name@ == self.entries@[j].name@
                        && self.entries@[i].label == self.entries@[j].label implies i == j by {
                    let p = if i < a { i } else { i + 1 };
                    let q = if j < a { j } else { j + 1 };
                    assert(before.entries@[p].name@ == before.entries@[q].name@);
                }
                assert forall|k: (Seq<char>, u64)| #[trigger]
                    self@.contains_key(k) == before@.remove(key).contains_key(k) by {
                    if self@.contains_key(k) {
                        let i = choose|i: int| entry_at(self.entries@, i, k);
                        let p = if i < a { i } else { i + 1 };
                        assert(entry_at(before.entries@, p, k));
                        assert(before.entries@[p].name@ == k.0);
                        assert(before.entries@[a].name@ == key.0);
                    }
                    if before@.contains_key(k) && k != key {
                        let i = choose|i: int| entry_at(before.entries@, i, k);
                        let p = if i < a { i } else { i - 1 };
                        assert(entry_at(self.entries@, p, k));
                    }
                }
                assert forall|k: (Seq<char>, u64)| #[trigger]
                    self@.contains_key(k) implies self@[k] == before@.remove(key)[k] by {
                    let i = choose|i: int| entry_at(self.entries@, i, k);
                    let p = if i < a { i } else { i + 1 };
                    self.lemma_entry(i);
                    before.lemma_entry(p);
                }
            }
        }
        assert(self@ =~= before@.remove(key));
    }

    /// Replace the value of a registered implementation.
    pub fn overwrite(&mut self, name: &str, label: u64, value: u64)
        requires
            old(self).wf(),
            old(self)@.contains_key((name@, label)),
        ensures
            final(self).wf(),
            final(self)@ == old(self)@.insert(
                (name@, label),
                ServiceImpl { value, ..old(self)@[(name@, label)] },
            ),
    {
        let ghost before = *self;
        let ghost key = (name@, label);
        if let Some(at) = self.position(name, label) {
            self.entries[at].service.value = value;
            proof {
                let a = at as int;
                let changed = ServiceImpl { value, ..before@[key] };
                assert(self.entries@ =~= before.entries@.update(
                    a,
                    ServiceEntry { service: changed, ..before.entries@[a] },
                ));
                assert forall|i: int, j: int|
                    #![trigger self.entries@[i], self.entries@[j]]
                    0 <= i < self.entries@.len() && 0 <= j < self.entries@.len()
                        && self.entries@[i].name@ == self.entries@[j].name@
                        && self.entries@[i].label == self.entries@[j].label implies i == j by {
                    assert(before.entries@[i].name@ == before.entries@[j].name@);
                }
                assert forall|k: (Seq<char>, u64)| #[trigger]
                    self@.contains_key(k) == before@.insert(key, changed).contains_key(k) by {
                    if self@.contains_key(k) {
                        let i = choose|i: int| entry_at(self.entries@, i, k);
                        assert(entry_at(before.entries@, i, k));
                    }
                    if before@.contains_key(k) {
                        let i = choose|i: int| entry_at(before.entries@, i, k);
                        assert(entry_at(self.entries@, i, k));
                    }
                }
                assert forall|k: (Seq<char>, u64)| #[trigger]
                    self@.contains_key(k) implies self@[k] == before@.insert(key, changed)[k] by {
                    let i = choose|i: int| entry_at(self.entries@, i, k);
                    self.lemma_entry(i);
                    before.lemma_entry(i);
                    if i != a {
                        assert(before.entries@[i].name@ != before.entries@[a].name@
                            || before.entries@[i].label != before.entries@[a].label);
                    }
                }
                assert(self@ =~= before@.insert(key, changed));
            }
        }
    }

    /// The services that `uid` provides, each scope by itself.
    pub fn provided_services(&self, uid: u64) -> (res: Vec<(String, u64)>)
        requires
            self.wf(),
        ensures
            forall|key: (Seq<char>, u64)| #[trigger]
                keys_view(res@).contains(key) <==> provides(self@, uid, key),
            keys_view(res@).no_duplicates(),
    {
        let mut res: Vec<(String, u64)> = Vec::new();
        let mut i: usize = 0;
        while i < self.entries.len()
            invariant
                i <= self.entries@.len(),
                self.wf(),
                forall|key: (Seq<char>, u64)| #[trigger]
                    keys_view(res@).contains(key) <==> counted(self.entries@, i as int, uid, key),
                keys_view(res@).no_duplicates(),
            decreases self.entries@.len() - i,
        {
            let ghost before = keys_view(res@);
            let ghost at = i as int;
            let entry: &ServiceEntry = &self.entries[i];
            let ghost found = (entry.name@, entry.label);
            if entry.service.provider_uid == uid {
                res.push((entry.name.clone(), entry.label));
                proof {
                    assert(keys_view(res@) =~= before.push(found));
                    assert(counted_at(self.entries@, at + 1, uid, found, at));
                    assert(!before.contains(found)) by {
                        if before.contains(found) {
                            assert(counted(self.entries@, at, uid, found));
                            let j = choose|j: int| counted_at(self.entries@, at, uid, found, j);
                            assert(entry_at(self.entries@, j, found));
                            assert(entry_at(self.entries@, at, found));
                        }
                    }
                }
            }
            proof {
                assert forall|key: (Seq<char>, u64)| #[trigger]
                    keys_view(res@).contains(key) <==> counted(self.entries@, at + 1, uid, key) by {
                    lemma_counted(self.entries@, at, uid, key);
                    if before.contains(key) {
                        let k = choose|k: int| 0 <= k < before.len() && before[k] == key;
                        assert(keys_view(res@)[k] == key);
                    }
                    if key == found && entry.service.provider_uid == uid {
                        assert(keys_view(res@)[before.len() as int] == key);
                    }
                }
            }
            i = i + 1;
        }
        proof {
            let n = self.entries@.len() as int;
            assert forall|key: (Seq<char>, u64)| #[trigger]
                keys_view(res@).contains(key) <==> provides(self@, uid, key) by {
                if counted(self.entries@, n, uid, key) {
                    let j = choose|j: int| counted_at(self.entries@, n, uid, key, j);
                    self.lemma_entry(j);
                }
                if provides(self@, uid, key) {
                    let j = choose|j: int| entry_at(self.entries@, j, key);
                    self.lemma_entry(j);
                    assert(counted_at(self.entries@, n, uid, key, j));
                }
            }
        }
        res
    }
}

/// One of the first `n` entries is the service `key`, and `uid` provides it.
spec fn counted(entries: Seq<ServiceEntry>, n: int, uid: u64, key: (Seq<char>, u64)) -> bool {
    exists|j: int| #[trigger] counted_at(entries, n, uid, key, j)
}

spec fn counted_at(
    entries: Seq<ServiceEntry>,
    n: int,
    uid: u64,
    key: (Seq<char>, u64),
    j: int,
) -> bool {
    0 <= j < n && entries[j].service.provider_uid == uid && entries[j].name@ == key.0
        && entries[j].label == key.1
}

proof fn lemma_counted(entries: Seq<ServiceEntry>, n: int, uid: u64, key: (Seq<char>, u64))
    requires
        0 <= n,
    ensures
        counted(entries, n + 1, uid, key) <==> counted(entries, n, uid, key) || counted_at(
            entries,
            n + 1,
            uid,
            key,
            n,
        ),
{
    if counted(entries, n, uid, key) {
        let j = choose|j: int| counted_at(entries, n, uid, key, j);
        assert(counted_at(entries, n + 1, uid, key, j));
    }
    if counted(entries, n + 1, uid, key) {
        let m = n + 1;
        let j = choose|j: int| counted_at(entries, m, uid, key, j);
        if j < n {
            assert(counted_at(entries, n, uid, key, j));
        }
    }
}

} // verus!
