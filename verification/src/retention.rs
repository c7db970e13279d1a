//! What the kernel still refers to.
//!
//! Values, predicates, producers, listeners and plugins are known to the
//! kernel by number. Whoever keeps what stands behind a number may drop it as
//! soon as the kernel does not hold the number any more.

use vstd::prelude::*;

use crate::context::Context;
use crate::events::{has_callback, hooks_of, Hook};
use crate::fiber::{DisposerView, Fiber, FiberView, ProviderSnapshot};
use crate::names::{names_at, NameMap};
use crate::root::{RootState, RootView};
use crate::service::{entry_at, ServiceImpl, Services};

verus! {

/// The service `key` is stored with the value `number`.
pub open spec fn serves_value(services: Services, key: (Seq<char>, u64), number: u64) -> bool {
    services.contains_key(key) && services[key].compute is None && services[key].value == number
}

/// The service `key` has the availability predicate `number`.
pub open spec fn serves_check(services: Services, key: (Seq<char>, u64), number: u64) -> bool {
    services.contains_key(key) && services[key].check == Some(number)
}

/// The service `key` is computed by the producer `number`.
pub open spec fn serves_compute(services: Services, key: (Seq<char>, u64), number: u64) -> bool {
    services.contains_key(key) && services[key].compute == Some(number)
}

/// These snapshots hold the value `number` under `name`.
pub open spec fn remembers_value(
    store: Map<Seq<char>, ProviderSnapshot>,
    name: Seq<char>,
    number: u64,
) -> bool {
    store.contains_key(name) && !store[name].dynamic && store[name].value == number
}

/// `f` is a dependent with a snapshot of the value `number`.
pub open spec fn depends_on_value(fibers: Seq<FiberView>, f: int, number: u64) -> bool {
    0 <= f < fibers.len() && exists|name: Seq<char>| #[trigger]
        remembers_value(fibers[f].store, name, number)
}

/// The listener `number` is registered under `event`.
pub open spec fn listens_to(
    hooks: Map<Seq<char>, Seq<Hook>>,
    event: Seq<char>,
    number: u64,
) -> bool {
    has_callback(hooks_of(hooks, event), number)
}

/// `f` is a fiber of the plugin `key` that is running or still at work.
pub open spec fn works_for(fibers: Seq<FiberView>, f: int, key: u64) -> bool {
    0 <= f < fibers.len() && fibers[f].runtime == Some(key) && (fibers[f].uid is Some
        || fibers[f].unsettled())
}

impl RootView {
    /// The value `number` can still be read.
    pub open spec fn holds_value(self, number: u64) -> bool {
        ||| exists|key: (Seq<char>, u64)| #[trigger] serves_value(self.services, key, number)
        ||| exists|f: int| #[trigger] depends_on_value(self.fibers, f, number)
    }

    /// The availability predicate `number` can still be consulted.
    pub open spec fn holds_check(self, number: u64) -> bool {
        exists|key: (Seq<char>, u64)| #[trigger] serves_check(self.services, key, number)
    }

    /// The producer `number` can still be asked.
    pub open spec fn holds_compute(self, number: u64) -> bool {
        exists|key: (Seq<char>, u64)| #[trigger] serves_compute(self.services, key, number)
    }

    /// The listener `number` can still be called.
    pub open spec fn holds_listener(self, number: u64) -> bool {
        exists|event: Seq<char>| #[trigger] listens_to(self.hooks, event, number)
    }

    /// The plugin `key` can still be loaded.
    pub open spec fn holds_plugin(self, key: u64) -> bool {
        exists|f: int| #[trigger] works_for(self.fibers, f, key)
    }
}

/// Whether one of these snapshots holds the value `number`.
fn store_holds(store: &NameMap<ProviderSnapshot>, number: u64) -> (res: bool)
    requires
        store.wf(),
    ensures
        res == exists|name: Seq<char>| #[trigger] remembers_value(store@, name, number),
{
    let mut i: usize = 0;
    while i < store.entries.len()
        invariant
            store.wf(),
            i <= store.entries@.len(),
            forall|j: int|
                0 <= j < i ==> (#[trigger] store.entries@[j]).1.dynamic || store.entries@[j].1.value
                    != number,
        decreases store.entries@.len() - i,
    {
        let snapshot: ProviderSnapshot = store.entries[i].1;
        if !snapshot.dynamic && snapshot.value == number {
            proof {
                store.lemma_entry(i as int);
                assert(remembers_value(store@, store.entries@[i as int].0@, number));
            }
            return true;
        }
        i = i + 1;
    }
    proof {
        assert forall|name: Seq<char>| !#[trigger] remembers_value(store@, name, number) by {
            if store@.contains_key(name) {
                let j = choose|j: int| names_at(store.entries@, j, name);
                store.lemma_entry(j);
            }
        }
    }
    false
}

impl RootState {
    /// Whether the value `number` can still be read: a service is stored with
    /// it, or a dependent has a snapshot of it.
    pub fn holds_value(&self, number: u64) -> (res: bool)
        requires
            self.wf(),
        ensures
            res == self@.holds_value(number),
    {
        let mut i: usize = 0;
        while i < self.reflect.entries.len()
            invariant
                self.wf(),
                i <= self.reflect.entries@.len(),
                forall|j: int|
                    0 <= j < i ==> (#[trigger] self.reflect.entries@[j]).service.compute is Some
                        || self.reflect.entries@[j].service.value != number,
            decreases self.reflect.entries@.len() - i,
        {
            let service: ServiceImpl = self.reflect.entries[i].service;
            if service.compute.is_none() && service.value == number {
                proof {
                    self.reflect.lemma_entry(i as int);
                    let entry = self.reflect.entries@[i as int];
                    assert(serves_value(self@.services, (entry.name@, entry.label), number));
                }
                return true;
            }
            i = i + 1;
        }
        proof {
            assert forall|key: (Seq<char>, u64)| !#[trigger] serves_value(
                self@.services,
                key,
                number,
            ) by {
                if self@.services.contains_key(key) {
                    let j = choose|j: int| entry_at(self.reflect.entries@, j, key);
                    self.reflect.lemma_entry(j);
                }
            }
        }
        let mut f: usize = 0;
        while f < self.fibers.len()
            invariant
                self.wf(),
                f <= self.fibers@.len(),
                forall|key: (Seq<char>, u64)| !#[trigger] serves_value(self@.services, key, number),
                forall|g: int| 0 <= g < f ==> !#[trigger] depends_on_value(self@.fibers, g, number),
            decreases self.fibers@.len() - f,
        {
            let fiber: &Fiber = &self.fibers[f];
            assert(self@.fibers[f as int] == fiber@);
            if store_holds(&fiber.store, number) {
                proof {
                    let name = choose|name: Seq<char>| #[trigger]
                        remembers_value(fiber.store@, name, number);
                    assert(remembers_value(self@.fibers[f as int].store, name, number));
                    assert(depends_on_value(self@.fibers, f as int, number));
                }
                return true;
            }
            f = f + 1;
        }
        false
    }

    /// Whether the availability predicate `number` can still be consulted.
    pub fn holds_check(&self, number: u64) -> (res: bool)
        requires
            self.wf(),
        ensures
            res == self@.holds_check(number),
    {
        let mut i: usize = 0;
        while i < self.reflect.entries.len()
            invariant
                self.wf(),
                i <= self.reflect.entries@.len(),
                forall|j: int|
                    0 <= j < i ==> (#[trigger] self.reflect.entries@[j]).service.check != Some(
                        number,
                    ),
            decreases self.reflect.entries@.len() - i,
        {
            if let Some(check) = self.reflect.entries[i].service.check {
                if check == number {
                    proof {
                        self.reflect.lemma_entry(i as int);
                        let entry = self.reflect.entries@[i as int];
                        assert(serves_check(self@.services, (entry.name@, entry.label), number));
                    }
                    return true;
                }
            }
            i = i + 1;
        }
        proof {
            assert forall|key: (Seq<char>, u64)| !#[trigger] serves_check(
                self@.services,
                key,
                number,
            ) by {
                if self@.services.contains_key(key) {
                    let j = choose|j: int| entry_at(self.reflect.entries@, j, key);
                    self.reflect.lemma_entry(j);
                }
            }
        }
        false
    }

    /// Whether the producer `number` can still be asked.
    pub fn holds_compute(&self, number: u64) -> (res: bool)
        requires
            self.wf(),
        ensures
            res == self@.holds_compute(number),
    {
        let mut i: usize = 0;
        while i < self.reflect.entries.len()
            invariant
                self.wf(),
                i <= self.reflect.entries@.len(),
                forall|j: int|
                    0 <= j < i ==> (#[trigger] self.reflect.entries@[j]).service.compute != Some(
                        number,
                    ),
            decreases self.reflect.entries@.len() - i,
        {
            if let Some(producer) = self.reflect.entries[i].service.compute {
                if producer == number {
                    proof {
                        self.reflect.lemma_entry(i as int);
                        let entry = self.reflect.entries@[i as int];
                        assert(serves_compute(self@.services, (entry.name@, entry.label), number));
                    }
                    return true;
                }
            }
            i = i + 1;
        }
        proof {
            assert forall|key: (Seq<char>, u64)| !#[trigger] serves_compute(
                self@.services,
                key,
                number,
            ) by {
                if self@.services.contains_key(key) {
                    let j = choose|j: int| entry_at(self.reflect.entries@, j, key);
                    self.reflect.lemma_entry(j);
                }
            }
        }
        false
    }

    /// Whether the listener `number` can still be called.
    pub fn holds_listener(&self, number: u64) -> (res: bool)
        requires
            self.wf(),
        ensures
            res == self@.holds_listener(number),
    {
        let mut i: usize = 0;
        while i < self.events.hooks.entries.len()
            invariant
                self.wf(),
                i <= self.events.hooks.entries@.len(),
                forall|j: int|
                    0 <= j < i ==> !has_callback(
                        (#[trigger] self.events.hooks.entries@[j]).1@,
                        number,
                    ),
            decreases self.events.hooks.entries@.len() - i,
        {
            if lists(&self.events.hooks.entries[i].1, number) {
                proof {
                    self.events.hooks.lemma_entry(i as int);
                    let event = self.events.hooks.entries@[i as int].0@;
                    assert(hooks_of(self@.hooks, event)
                        == self.events.hooks.entries@[i as int].1@);
                    assert(listens_to(self@.hooks, event, number));
                }
                return true;
            }
            i = i + 1;
        }
        proof {
            assert forall|event: Seq<char>| !#[trigger] listens_to(self@.hooks, event, number) by {
                if self.events.hooks@.contains_key(event) {
                    let j = choose|j: int| names_at(self.events.hooks.entries@, j, event);
                    self.events.hooks.lemma_entry(j);
                    assert(hooks_of(self@.hooks, event) == self.events.hooks.entries@[j].1@);
                }
            }
        }
        false
    }

    /// Whether the plugin `key` can still be loaded: one of its fibers is
    /// running or still at work.
    pub fn holds_plugin(&self, key: u64) -> (res: bool)
        requires
            self.wf(),
        ensures
            res == self@.holds_plugin(key),
    {
        let mut f: usize = 0;
        while f < self.fibers.len()
            invariant
                self.wf(),
                f <= self.fibers@.len(),
                forall|g: int| 0 <= g < f ==> !#[trigger] works_for(self@.fibers, g, key),
            decreases self.fibers@.len() - f,
        {
            let fiber: &Fiber = &self.fibers[f];
            assert(self@.fibers[f as int] == fiber@);
            if let Some(runtime) = fiber.runtime {
                if runtime == key && (fiber.uid.is_some() || fiber.join().is_none()) {
                    assert(works_for(self@.fibers, f as int, key));
                    return true;
                }
            }
            f = f + 1;
        }
        false
    }
}

/// Whether the listener `number` is in the list.
fn lists(hooks: &Vec<Hook>, number: u64) -> (res: bool)
    ensures
        res == has_callback(hooks@, number),
{
    let mut i: usize = 0;
    while i < hooks.len()
        invariant
            i <= hooks@.len(),
            forall|j: int| 0 <= j < i ==> (#[trigger] hooks@[j]).callback != number,
        decreases hooks@.len() - i,
    {
        if hooks[i].callback == number {
            return true;
        }
        i = i + 1;
    }
    false
}

/// A withdrawn value is let go once no other service is stored with it and no
/// dependent has a snapshot of it.
pub proof fn law_withdrawn_value_is_let_go(
    root: RootView,
    ctx: Context,
    name: Seq<char>,
    number: u64,
)
    requires
        forall|key: (Seq<char>, u64)| #[trigger]
            serves_value(root.services, key, number) ==> key == (name, ctx.label_of(name)),
        forall|f: int| !#[trigger] depends_on_value(root.fibers, f, number),
    ensures
        !root.undone(DisposerView::Withdraw { ctx, name }).holds_value(number),
{
    let after = root.undone(DisposerView::Withdraw { ctx, name });
    assert forall|key: (Seq<char>, u64)| !#[trigger] serves_value(
        after.services,
        key,
        number,
    ) by {
        if serves_value(after.services, key, number) {
            assert(serves_value(root.services, key, number));
        }
    }
}

/// What can still be reached is not let go. The service `key` keeps its stored
/// value, its predicate and its producer; a fiber keeps the values that it has
/// snapshots of; an event keeps its listeners; and a fiber that is running, or
/// asked for something, driven or not where it desires to be, keeps its
/// plugin.
pub proof fn law_what_is_in_use_is_kept(
    root: RootView,
    key: (Seq<char>, u64),
    f: int,
    name: Seq<char>,
    i: int,
    number: u64,
)
    ensures
        root.services.contains_key(key) && root.services[key].compute is None
            && root.services[key].value == number ==> root.holds_value(number),
        root.services.contains_key(key) && root.services[key].check == Some(number)
            ==> root.holds_check(number),
        root.services.contains_key(key) && root.services[key].compute == Some(number)
            ==> root.holds_compute(number),
        0 <= f < root.fibers.len() && root.fibers[f].store.contains_key(name)
            && !root.fibers[f].store[name].dynamic && root.fibers[f].store[name].value == number
            ==> root.holds_value(number),
        root.hooks.contains_key(name) && 0 <= i < root.hooks[name].len()
            && root.hooks[name][i].callback == number ==> root.holds_listener(number),
        0 <= f < root.fibers.len() && root.fibers[f].runtime == Some(number) && (
        root.fibers[f].uid is Some || root.fibers[f].dirty || root.fibers[f].running
            || root.fibers[f].loaded != root.fibers[f].desired) ==> root.holds_plugin(number),
{
    if root.services.contains_key(key) {
        if root.services[key].compute is None && root.services[key].value == number {
            assert(serves_value(root.services, key, number));
        }
        if root.services[key].check == Some(number) {
            assert(serves_check(root.services, key, number));
        }
        if root.services[key].compute == Some(number) {
            assert(serves_compute(root.services, key, number));
        }
    }
    if 0 <= f < root.fibers.len() {
        if root.fibers[f].store.contains_key(name) && !root.fibers[f].store[name].dynamic
            && root.fibers[f].store[name].value == number {
            assert(remembers_value(root.fibers[f].store, name, number));
            assert(depends_on_value(root.fibers, f, number));
        }
        if root.fibers[f].runtime == Some(number) && (root.fibers[f].uid is Some
            || root.fibers[f].dirty || root.fibers[f].running || root.fibers[f].loaded
            != root.fibers[f].desired) {
            assert(works_for(root.fibers, f, number));
        }
    }
    if root.hooks.contains_key(name) && 0 <= i < root.hooks[name].len()
        && root.hooks[name][i].callback == number {
        assert(has_callback(hooks_of(root.hooks, name), number));
        assert(listens_to(root.hooks, name, number));
    }
}

/// What cannot be reached any more is let go: no service is stored with the
/// number and no fiber has a snapshot of it; no service has it as its
/// predicate, or as its producer; no event has it as a listener; no fiber of
/// the plugin is running or has work left.
pub proof fn law_what_is_out_of_use_is_let_go(root: RootView, number: u64)
    ensures
        (forall|key: (Seq<char>, u64)| #[trigger]
            root.services.contains_key(key) ==> root.services[key].compute is Some
                || root.services[key].value != number) && (forall|f: int, name: Seq<char>|
            0 <= f < root.fibers.len() && #[trigger] root.fibers[f].store.contains_key(name)
                ==> root.fibers[f].store[name].dynamic || root.fibers[f].store[name].value
                != number) ==> !root.holds_value(number),
        (forall|key: (Seq<char>, u64)| #[trigger]
            root.services.contains_key(key) ==> root.services[key].check != Some(number))
            ==> !root.holds_check(number),
        (forall|key: (Seq<char>, u64)| #[trigger]
            root.services.contains_key(key) ==> root.services[key].compute != Some(number))
            ==> !root.holds_compute(number),
        (forall|event: Seq<char>, i: int|
            root.hooks.contains_key(event) && 0 <= i < root.hooks[event].len() ==> (
            #[trigger] root.hooks[event][i]).callback != number) ==> !root.holds_listener(number),
        (forall|f: int|
            0 <= f < root.fibers.len() && (#[trigger] root.fibers[f]).runtime == Some(number)
                ==> root.fibers[f].uid is None && !root.fibers[f].dirty && !root.fibers[f].running
                && root.fibers[f].loaded == root.fibers[f].desired) ==> !root.holds_plugin(number),
{
    if root.holds_value(number) {
        if exists|key: (Seq<char>, u64)| #[trigger] serves_value(root.services, key, number) {
            let key = choose|key: (Seq<char>, u64)| #[trigger]
                serves_value(root.services, key, number);
            assert(root.services.contains_key(key));
        } else {
            let f = choose|f: int| #[trigger] depends_on_value(root.fibers, f, number);
            let name = choose|name: Seq<char>| #[trigger]
                remembers_value(root.fibers[f].store, name, number);
            assert(root.fibers[f].store.contains_key(name));
        }
    }
    if root.holds_check(number) {
        let key = choose|key: (Seq<char>, u64)| #[trigger]
            serves_check(root.services, key, number);
        assert(root.services.contains_key(key));
    }
    if root.holds_compute(number) {
        let key = choose|key: (Seq<char>, u64)| #[trigger]
            serves_compute(root.services, key, number);
        assert(root.services.contains_key(key));
    }
    if root.holds_listener(number) {
        let event = choose|event: Seq<char>| #[trigger] listens_to(root.hooks, event, number);
        let hooks = hooks_of(root.hooks, event);
        let i = choose|i: int| 0 <= i < hooks.len() && (#[trigger] hooks[i]).callback == number;
        assert(root.hooks[event][i].callback == number);
    }
    if root.holds_plugin(number) {
        let f = choose|f: int| #[trigger] works_for(root.fibers, f, number);
        assert(root.fibers[f].runtime == Some(number));
    }
}

} // verus!
