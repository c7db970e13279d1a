//! The plugin registry: starting and disposing of fibers.
//!
//! Runtimes are keyed by plugin identity: starting one plugin twice makes two
//! fibers of one runtime; disposing of the last fiber of a runtime removes it.

use vstd::prelude::*;

use crate::context::Context;
use crate::fiber::{inactive, Fiber, FiberState, FiberView};
use crate::json::Json;
use crate::lifecycle::fresh_fiber;
use crate::plugin::{
    injections_view, normalize_inject, required_names, service_names, Injection, InjectionView,
    IntoInjections,
};
use crate::reactivity::lemma_answered_frame;
use crate::resolve::{lemma_questions_fit, probes_view, Probe, ProbeView};
use crate::root::{
    bit, lemma_all_sound, lemma_clear_bit, registry_wf, runs, InternalEvent, InternalEventView,
    RootState, RootView, Runtime, RuntimeView,
};
use crate::scope::layer_count;
use crate::text::texts;

verus! {

/// Handle of a started plugin.
///
/// Copies refer to the same fiber; dropping one does not dispose of it.
#[derive(Debug, Clone, Copy, PartialEq, Eq, Structural)]
pub struct FiberHandle(pub usize);

/// A fiber that has just been created, and what to ask on its behalf before
/// it may converge.
pub struct Started {
    pub handle: FiberHandle,
    pub probes: Vec<Probe>,
}

impl Started {
    /// The context that the fiber is bound to.
    pub open spec fn bound(&self, root: RootView) -> Context {
        root.fibers[self.handle.0 as int].ctx
    }
}

/// All these probes are asked on behalf of `f`.
pub open spec fn probes_of(probes: Seq<ProbeView>, f: int) -> bool {
    forall|i: int| 0 <= i < probes.len() ==> (#[trigger] probes[i]).fiber == f
}

/// `list` without every occurrence of `f`.
pub open spec fn without(list: Seq<usize>, f: usize) -> Seq<usize>
    decreases list.len(),
{
    if list.len() == 0 {
        Seq::empty()
    } else if list.last() == f {
        without(list.drop_last(), f)
    } else {
        without(list.drop_last(), f).push(list.last())
    }
}

proof fn lemma_without(list: Seq<usize>, f: usize)
    ensures
        forall|x: usize| #[trigger] without(list, f).contains(x) <==> list.contains(x) && x != f,
        list.no_duplicates() ==> without(list, f).no_duplicates(),
    decreases list.len(),
{
    if list.len() > 0 {
        let rest = list.drop_last();
        let last = list.last();
        lemma_without(rest, f);
        assert(list =~= rest.push(last));
        assert forall|x: usize| list.contains(x) <==> rest.contains(x) || x == last by {
            if rest.contains(x) {
                let i = choose|i: int| 0 <= i < rest.len() && rest[i] == x;
                assert(list[i] == x);
            }
            if x == last {
                assert(list[list.len() - 1] == x);
            }
        }
        assert forall|x: usize| #[trigger] without(list, f).contains(x) <==> list.contains(x) && x
            != f by {
            let kept = without(rest, f);
            if last != f {
                if kept.contains(x) {
                    let i = choose|i: int| 0 <= i < kept.len() && kept[i] == x;
                    assert(kept.push(last)[i] == x);
                }
                if x == last {
                    assert(kept.push(last)[kept.len() as int] == x);
                }
            }
        }
        if list.no_duplicates() {
            assert(!rest.contains(last)) by {
                if rest.contains(last) {
                    let i = choose|i: int| 0 <= i < rest.len() && rest[i] == last;
                    assert(list[i] == list[list.len() - 1]);
                }
            }
            assert(rest.no_duplicates());
            assert(!without(rest, f).contains(last));
        }
    }
}

/// `f` taken out of the runtime `key`; a runtime without fibers goes.
pub open spec fn detached(registry: Map<u64, RuntimeView>, key: u64, f: usize) -> Map<
    u64,
    RuntimeView,
> {
    if !registry.contains_key(key) {
        registry
    } else {
        let left = without(registry[key].fibers, f);
        if left.len() == 0 {
            registry.remove(key)
        } else {
            registry.insert(key, RuntimeView { fibers: left, ..registry[key] })
        }
    }
}

/// `f` added to the runtime `key`, which is created if need be.
pub open spec fn attached(
    registry: Map<u64, RuntimeView>,
    key: u64,
    name: Seq<char>,
    f: usize,
) -> Map<u64, RuntimeView> {
    if registry.contains_key(key) {
        registry.insert(
            key,
            RuntimeView { fibers: registry[key].fibers.push(f), ..registry[key] },
        )
    } else {
        registry.insert(key, RuntimeView { name, fibers: seq![f] })
    }
}

impl RootView {
    /// The name of the plugin `key`, which calls itself `name`: a runtime
    /// keeps the name that it was created with.
    pub open spec fn plugin_name(self, key: u64, name: Seq<char>) -> Seq<char> {
        if self.registry.contains_key(key) {
            self.registry[key].name
        } else {
            name
        }
    }

    /// A fiber of the plugin `key` created under `ctx`, bound to `bound`, and
    /// announced. Each declaration with a config has used up one scope node.
    pub open spec fn started(
        self,
        ctx: Context,
        bound: Context,
        key: u64,
        name: Seq<char>,
        declared: Seq<InjectionView>,
        config: Json,
    ) -> RootView {
        let f = self.fibers.len();
        let called = self.plugin_name(key, name);
        let inject = required_names(declared);
        (RootView {
            registry: attached(self.registry, key, name, f as usize),
            fibers: self.fibers.push(
                fresh_fiber(f as u64, Some(key), called, inject, bound, config, inactive()),
            ),
            scope_seed: (self.scope_seed + layer_count(declared)) as u64,
            ..self
        }).emitted(
            ctx,
            InternalEventView::PluginCreated { fiber: called, uid: f as u64, inject },
            None,
        )
    }

    /// The running fiber `f` disposed of: no uid, out of the registry, on its
    /// way to unload.
    pub open spec fn disposed(self, f: int) -> RootView {
        let fiber = self.fibers[f];
        let gone = self.with_fiber(f, FiberView { uid: None, ..fiber }).cached(f);
        (RootView {
            registry: match fiber.runtime {
                Some(key) => detached(self.registry, key, f as usize),
                None => self.registry,
            },
            ..gone
        }).emitted(
            fiber.ctx,
            InternalEventView::PluginDisposed { fiber: fiber.name, uid: fiber.uid.unwrap() },
            None,
        ).requested(f, inactive())
    }

    /// The running plugin fibers among the first `n`, newest first.
    pub open spec fn running_below(self, n: int) -> Seq<usize>
        decreases n,
    {
        if n <= 1 {
            Seq::empty()
        } else if self.fibers[n - 1].uid is Some {
            seq![(n - 1) as usize] + self.running_below(n - 1)
        } else {
            self.running_below(n - 1)
        }
    }
}

impl Context {
    /// Create a fiber of the plugin `key` under this context; a config in a
    /// declaration is an intercept layer for that service. The plugin body
    /// runs once the answers to the probes are in and all its required
    /// services are there.
    pub fn plugin(
        &self,
        root: &mut RootState,
        key: u64,
        name: &str,
        inject: Vec<Injection>,
        config: Option<Json>,
    ) -> (res: Started)
        requires
            old(root).wf(),
            old(root).has_context(*self),
            old(root).fibers@.len() < usize::MAX,
            old(root).scope_seed + inject@.len() <= u64::MAX,
        ensures
            final(root).wf(),
            res.handle.0 == old(root).fibers@.len(),
            final(root).has_fiber(res.handle.0),
            res.bound(final(root)@).fiber == Some(res.handle.0),
            res.bound(final(root)@).dresses(*self, injections_view(inject@)),
            final(root)@ == old(root)@.started(
                *self,
                res.bound(final(root)@),
                key,
                name@,
                injections_view(inject@),
                match config {
                    Some(c) => c,
                    None => Json::Null,
                },
            ),
            probes_view(res.probes@) == final(root)@.all_questions(res.handle.0 as int, None),
            probes_of(probes_view(res.probes@), res.handle.0 as int),
    {
        let ghost start = *root;
        let f: usize = root.fibers.len();
        let uid: u64 = f as u64;
        let ghost declared = injections_view(inject@);
        assert(declared.len() == inject@.len());
        let layered: Context = self.dress(root, &inject);
        let ghost before = *root;
        let called: String = root.attach(key, name, f);
        let ghost listed = *root;
        let bound: Context = Context {
            root: self.root,
            scope: layered.scope.clone(),
            fiber: Some(f),
        };
        let mut required: Vec<String> = Vec::new();
        let mut i: usize = 0;
        while i < inject.len()
            invariant
                i <= inject@.len(),
                required@.len() == i,
                forall|j: int| 0 <= j < i ==> #[trigger] required@[j]@ == inject@[j].service@,
            decreases inject@.len() - i,
        {
            required.push(inject[i].service.clone());
            i = i + 1;
        }
        let ghost names = service_names(inject@);
        assert(texts(required@) =~= names);
        assert(required_names(declared) =~= names);
        let raw: Json = match config {
            Some(c) => c,
            None => Json::Null,
        };
        let ghost child = fresh_fiber(uid, Some(key), called@, names, bound, raw, inactive());
        let announced: String = called.clone();
        root.fibers.push(Fiber::new_child(key, called, inject, raw, uid, bound));
        proof {
            assert(root@ =~= (RootView {
                registry: listed@.registry,
                fibers: before@.fibers.push(child),
                ..before@
            }));
            assert(root@.fibers[f as int] == child);
            assert forall|i: int| 0 <= i < before@.fibers.len() implies #[trigger] root@.fibers[i]
                == before@.fibers[i] by {}
            assert forall|i: u64| i < 64 implies #[trigger] bit(root.active_fibers, i) == (i
                < root@.fibers.len() && root@.fibers[i as int].is_up()) by {
                assert(bit(before.active_fibers, i) == (i < before@.fibers.len()
                    && before@.fibers[i as int].is_up()));
            }
            assert forall|i: int| 0 <= i < root.fibers@.len() implies (
            #[trigger] root.fibers@[i]).wf() by {
                if i < f {
                    assert(root.fibers@[i] == before.fibers@[i]);
                }
            }
            assert forall|i: int| 0 <= i < root@.fibers.len() implies root.has_context(
                (#[trigger] root@.fibers[i]).ctx,
            ) by {
                if i < f {
                    assert(before.has_context(before@.fibers[i].ctx));
                }
            }
            lemma_attached(before@.registry, before@.fibers, key, name@, child);
        }
        root.emit(
            self.clone(),
            InternalEvent::PluginCreated { fiber: announced, uid, inject: required },
            None,
        );
        let probes: Vec<Probe> = root.probes(f, None);
        proof {
            lemma_questions_fit(root@, f as int, names.len() as int, None);
        }
        proof {
            assert(root@.fibers[f as int].ctx == bound);
            assert forall|name: Seq<char>| #[trigger] bound.label_of(name) == self.label_of(name) by {
                assert(layered.label_of(name) == self.label_of(name));
            }
            assert(root@ =~= start@.started(*self, bound, key, name@, declared, raw));
        }
        Started { handle: FiberHandle(f), probes }
    }
}

impl Context {
    /// Start an anonymous callback, the plugin `key`, once the named services
    /// are there.
    pub fn inject<I: IntoInjections>(&self, root: &mut RootState, key: u64, deps: I) -> (res:
        Started)
        requires
            old(root).wf(),
            old(root).has_context(*self),
            old(root).fibers@.len() < usize::MAX,
            old(root).scope_seed + deps.declares().len() <= u64::MAX,
        ensures
            final(root).wf(),
            res.handle.0 == old(root).fibers@.len(),
            final(root).has_fiber(res.handle.0),
            res.bound(final(root)@).fiber == Some(res.handle.0),
            res.bound(final(root)@).dresses(*self, deps.declares()),
            final(root)@ == old(root)@.started(
                *self,
                res.bound(final(root)@),
                key,
                "anonymous"@,
                deps.declares(),
                Json::Null,
            ),
            probes_view(res.probes@) == final(root)@.all_questions(res.handle.0 as int, None),
            probes_of(probes_view(res.probes@), res.handle.0 as int),
    {
        let inject: Vec<Injection> = normalize_inject(deps);
        assert(injections_view(inject@).len() == inject@.len());
        self.plugin(root, key, "anonymous", inject, None)
    }

    /// The plugin fibers to dispose of in order to stop, newest first.
    pub fn stop(&self, root: &RootState) -> (res: Vec<usize>)
        requires
            root.wf(),
        ensures
            res@ == root@.running_below(root@.fibers.len() as int),
    {
        root.stop_order()
    }

    /// Number of plugins with running fibers.
    pub fn registry_size(&self, root: &RootState) -> (res: usize)
        ensures
            res == root@.registry.len(),
    {
        root.registry_size()
    }

    /// Number of live fibers, the root fiber among them.
    pub fn live_fibers(&self, root: &RootState) -> (res: usize)
        requires
            root.wf(),
        ensures
            res == root@.running_below(root@.fibers.len() as int).len() + 1,
    {
        root.live_fibers()
    }
}

/// Adding a fresh fiber to the registry and to the fibers keeps them in
/// agreement.
proof fn lemma_attached(
    registry: Map<u64, RuntimeView>,
    fibers: Seq<FiberView>,
    key: u64,
    name: Seq<char>,
    child: FiberView,
)
    requires
        registry_wf(registry, fibers),
        fibers.len() < usize::MAX,
        child.uid is Some,
        child.runtime == Some(key),
    ensures
        registry_wf(attached(registry, key, name, fibers.len() as usize), fibers.push(child)),
{
    let f = fibers.len() as usize;
    let after = attached(registry, key, name, f);
    let grown = fibers.push(child);
    assert forall|i: int, k: u64| #[trigger] runs(grown, i, k) == (runs(fibers, i, k) || (i == f && k
        == key)) by {}
    let old_list = if registry.contains_key(key) {
        registry[key].fibers
    } else {
        Seq::empty()
    };
    assert(after[key].fibers =~= old_list.push(f));
    assert(!old_list.contains(f)) by {
        if old_list.contains(f) {
            assert(runs(fibers, f as int, key));
        }
    }
    assert forall|x: usize| after[key].fibers.contains(x) <==> old_list.contains(x) || x == f by {
        if old_list.contains(x) {
            let i = choose|i: int| 0 <= i < old_list.len() && old_list[i] == x;
            assert(after[key].fibers[i] == x);
        }
        if x == f {
            assert(after[key].fibers[old_list.len() as int] == x);
        }
    }
    assert forall|k: u64, i: usize|
        #![trigger after[k].fibers.contains(i)]
        after.contains_key(k) && after[k].fibers.contains(i) implies runs(grown, i as int, k) by {
        if k == key {
            if i != f {
                assert(registry[key].fibers.contains(i));
                assert(runs(fibers, i as int, k));
            }
        } else {
            assert(registry[k].fibers.contains(i));
            assert(runs(fibers, i as int, k));
        }
        assert(runs(grown, i as int, k));
    }
    assert forall|i: usize, k: u64| #[trigger] runs(grown, i as int, k) implies after.contains_key(k)
        && after[k].fibers.contains(i) by {
        if i != f {
            assert(runs(fibers, i as int, k));
            assert(registry[k].fibers.contains(i));
        }
    }
    assert forall|k: u64| after.contains_key(k) implies (
    #[trigger] after[k]).fibers.no_duplicates() && after[k].fibers.len() > 0 by {
        if k == key {
            assert(old_list.no_duplicates());
        } else {
            assert(registry[k].fibers.no_duplicates());
        }
    }
}

/// Taking a disposed fiber out of the registry keeps it in agreement with the
/// fibers.
proof fn lemma_detached(
    registry: Map<u64, RuntimeView>,
    fibers: Seq<FiberView>,
    after: Seq<FiberView>,
    f: usize,
    key: u64,
)
    requires
        registry_wf(registry, fibers),
        runs(fibers, f as int, key),
        after.len() == fibers.len(),
        after[f as int].uid is None,
        forall|i: int|
            0 <= i < fibers.len() && i != f ==> (#[trigger] after[i]).uid == fibers[i].uid
                && after[i].runtime == fibers[i].runtime,
    ensures
        registry_wf(detached(registry, key, f), after),
{
    let left = detached(registry, key, f);
    lemma_without(registry[key].fibers, f);
    assert forall|i: int, k: u64| #[trigger] runs(after, i, k) == (runs(fibers, i, k) && i != f) by {
        if 0 <= i < fibers.len() && i != f {
            assert(after[i].uid == fibers[i].uid);
        }
    }
    assert forall|k: u64, i: usize|
        #![trigger left[k].fibers.contains(i)]
        left.contains_key(k) && left[k].fibers.contains(i) implies runs(after, i as int, k) by {
        assert(registry[k].fibers.contains(i));
        assert(runs(fibers, i as int, k));
        assert(i != f) by {
            if i == f {
                assert(k == key);
                assert(without(registry[key].fibers, f).contains(i));
            }
        }
        assert(runs(after, i as int, k));
    }
    assert forall|i: usize, k: u64| #[trigger] runs(after, i as int, k) implies left.contains_key(k)
        && left[k].fibers.contains(i) by {
        assert(runs(fibers, i as int, k));
        assert(registry[k].fibers.contains(i));
        if k == key {
            assert(without(registry[key].fibers, f).contains(i));
        }
    }
    assert forall|k: u64| left.contains_key(k) implies (#[trigger] left[k]).fibers.no_duplicates()
        && left[k].fibers.len() > 0 by {
        assert(registry[k].fibers.no_duplicates());
    }
}

impl RootState {
    /// Add `f` to the runtime `key`; gives the name of the plugin.
    fn attach(&mut self, key: u64, name: &str, f: usize) -> (res: String)
        requires
            old(self).core_wf(),
        ensures
            *final(self) == (RootState { registry: final(self).registry, ..*old(self) }),
            final(self)@ == (RootView {
                registry: attached(old(self)@.registry, key, name@, f),
                ..old(self)@
            }),
            res@ == old(self)@.plugin_name(key, name@),
    {
        broadcast use vstd::std_specs::hash::group_hash_axioms;

        let ghost before = *self;
        let mut runtime: Runtime = match self.registry.remove(&key) {
            Some(runtime) => runtime,
            None => Runtime { name: name.to_owned(), fibers: Vec::new() },
        };
        let called: String = runtime.name.clone();
        runtime.fibers.push(f);
        let ghost entry = runtime@;
        self.registry.insert(key, runtime);
        proof {
            if !before@.registry.contains_key(key) {
                assert(entry.fibers =~= seq![f]);
            }
            assert(self@.registry =~= attached(before@.registry, key, name@, f));
            assert(self@ =~= (RootView { registry: self@.registry, ..before@ }));
        }
        called
    }

    /// Take `f` out of the runtime `key`; drop the runtime with its last
    /// fiber.
    fn detach(&mut self, key: u64, f: usize)
        requires
            old(self).core_wf(),
        ensures
            *final(self) == (RootState { registry: final(self).registry, ..*old(self) }),
            final(self)@ == (RootView {
                registry: detached(old(self)@.registry, key, f),
                ..old(self)@
            }),
    {
        broadcast use vstd::std_specs::hash::group_hash_axioms;

        let ghost before = *self;
        if let Some(runtime) = self.registry.remove(&key) {
            let Runtime { name, fibers } = runtime;
            let left: Vec<usize> = retain(&fibers, f);
            if left.len() > 0 {
                self.registry.insert(key, Runtime { name, fibers: left });
            }
        }
        proof {
            assert(self@.registry =~= detached(before@.registry, key, f));
            assert(self@ =~= (RootView { registry: self@.registry, ..before@ }));
        }
    }

    /// Apply the answers for a fiber just created, and let it converge.
    pub fn finish_plugin(&mut self, f: usize, probes: Vec<Probe>, verdicts: &Vec<bool>)
        requires
            old(self).wf(),
            old(self).has_fiber(f),
            probes_of(probes_view(probes@), f as int),
            verdicts@.len() == probes@.len(),
        ensures
            final(self).wf(),
            final(self)@ == old(self)@.answered(probes_view(probes@), verdicts@).refreshed(
                f as int,
            ),
    {
        let ghost before = self@;
        let ghost view = probes_view(probes@);
        self.answer(probes, verdicts);
        proof {
            assert forall|g: int| 0 <= g < self@.fibers.len() && g != f implies
                #[trigger] self@.fibers[g] == before.fibers[g] by {
                lemma_answered_frame(before, view, verdicts@, g);
            }
            lemma_answered_frame(before, view, verdicts@, f as int);
            assert(before.fibers[f as int].sound());
        }
        self.refresh(f);
        proof {
            lemma_all_sound(before.fibers, self@.fibers, f as int);
        }
    }

    /// Dispose of a fiber; says whether it was running. The driver then
    /// unloads it.
    pub fn dispose(&mut self, f: usize) -> (res: bool)
        requires
            old(self).wf(),
            old(self).has_fiber(f),
        ensures
            final(self).wf(),
            res == (old(self)@.fibers[f as int].uid is Some),
            !res ==> final(self)@ == old(self)@,
            res ==> final(self)@ == old(self)@.disposed(f as int),
    {
        let ghost before = *self;
        assert(self@.fibers[f as int] == self.fibers@[f as int]@);
        let uid: u64 = match self.fibers[f].uid {
            Some(uid) => uid,
            None => {
                return false;
            },
        };
        // Without a uid the bit could not be found again.
        if uid < 64 {
            self.active_fibers = self.active_fibers & !(1u64 << uid);
        }
        self.fibers[f].uid = None;
        proof {
            let gone = FiberView { uid: None, ..before@.fibers[f as int] };
            assert(self.fibers@[f as int]@ =~= gone);
            assert(self@ =~= before@.with_fiber(f as int, gone));
            assert forall|i: u64| i < 64 implies #[trigger] bit(self.active_fibers, i) == (i
                < self@.fibers.len() && self@.fibers[i as int].is_up()) by {
                assert(bit(before.active_fibers, i) == (i < before@.fibers.len()
                    && before@.fibers[i as int].is_up()));
                if uid < 64 {
                    lemma_clear_bit(before.active_fibers, uid, i);
                }
            }
            assert forall|i: int| 0 <= i < self@.fibers.len() implies self.has_context(
                (#[trigger] self@.fibers[i]).ctx,
            ) by {
                assert(before.has_context(before@.fibers[i].ctx));
            }
        }
        self.cache_state(f);
        assert(self@.fibers[f as int] == self.fibers@[f as int]@);
        if let Some(key) = self.fibers[f].runtime {
            self.detach(key, f);
            proof {
                assert(runs(before@.fibers, f as int, key));
                lemma_detached(before@.registry, before@.fibers, self@.fibers, f, key);
            }
        } else {
            proof {
                assert forall|i: int, k: u64| #[trigger]
                    runs(self@.fibers, i, k) == runs(before@.fibers, i, k) by {}
                assert forall|k: u64, i: usize|
                    #![trigger self@.registry[k].fibers.contains(i)]
                    self@.registry.contains_key(k) && self@.registry[k].fibers.contains(
                        i,
                    ) implies runs(self@.fibers, i as int, k) by {
                    assert(runs(before@.fibers, i as int, k));
                }
            }
        }
        let name: String = self.fibers[f].name.clone();
        let ctx: Context = self.fibers[f].ctx.clone();
        self.emit(ctx, InternalEvent::PluginDisposed { fiber: name, uid }, None);
        self.request_epoch(f, String::new());
        true
    }

    /// The running plugin fibers, newest first: the order in which stopping
    /// disposes of them.
    pub fn stop_order(&self) -> (res: Vec<usize>)
        requires
            self.wf(),
        ensures
            res@ == self@.running_below(self@.fibers.len() as int),
    {
        let mut res: Vec<usize> = Vec::new();
        let mut n: usize = self.fibers.len();
        let ghost all = self@.running_below(n as int);
        assert(all =~= res@ + self@.running_below(n as int));
        while n > 1
            invariant
                n <= self.fibers@.len(),
                all == res@ + self@.running_below(n as int),
            decreases n,
        {
            let ghost before = res@;
            let at: usize = n - 1;
            assert(self@.fibers[at as int] == self.fibers@[at as int]@);
            if self.fibers[at].uid.is_some() {
                res.push(at);
                assert(before + (seq![at] + self@.running_below(at as int)) =~= res@
                    + self@.running_below(at as int));
            }
            n = n - 1;
        }
        assert(res@ + self@.running_below(n as int) =~= res@);
        res
    }

    /// Number of plugins with running fibers.
    pub fn registry_size(&self) -> (res: usize)
        ensures
            res == self@.registry.len(),
    {
        broadcast use vstd::std_specs::hash::group_hash_axioms;

        assert(self@.registry.dom() =~= self.registry@.dom());
        self.registry.len()
    }

    /// Number of live fibers, the root fiber among them.
    pub fn live_fibers(&self) -> (res: usize)
        requires
            self.wf(),
        ensures
            res == self@.running_below(self@.fibers.len() as int).len() + 1,
    {
        let running: Vec<usize> = self.stop_order();
        let total: usize = self.fibers.len();
        proof {
            lemma_running_below(self@, self@.fibers.len() as int);
        }
        assert(running@.len() < total);
        running.len() + 1
    }
}

proof fn lemma_running_below(root: RootView, n: int)
    ensures
        n >= 1 ==> root.running_below(n).len() < n,
    decreases n,
{
    if n > 1 {
        lemma_running_below(root, n - 1);
    }
}

fn retain(list: &Vec<usize>, f: usize) -> (res: Vec<usize>)
    ensures
        res@ == without(list@, f),
{
    let mut res: Vec<usize> = Vec::new();
    let mut i: usize = 0;
    assert(list@.take(0) =~= Seq::empty());
    while i < list.len()
        invariant
            i <= list@.len(),
            res@ == without(list@.take(i as int), f),
        decreases list@.len() - i,
    {
        assert(list@.take(i + 1).drop_last() =~= list@.take(i as int));
        if list[i] != f {
            res.push(list[i]);
        }
        i = i + 1;
    }
    assert(list@.take(list@.len() as int) =~= list@);
    res
}

/// Starting one plugin twice makes two fibers of one runtime, in order, under
/// the name that it had the first time.
pub proof fn law_one_plugin_one_runtime(
    root: RootView,
    ctx: Context,
    other: Context,
    a: Context,
    b: Context,
    key: u64,
    name: Seq<char>,
    again: Seq<char>,
    inject: Seq<InjectionView>,
    config: Json,
)
    requires
        !root.registry.contains_key(key),
        root.fibers.len() + 1 < usize::MAX,
    ensures
        root.started(ctx, a, key, name, inject, config).started(
            other,
            b,
            key,
            again,
            inject,
            config,
        ).registry == root.registry.insert(
            key,
            RuntimeView {
                name,
                fibers: seq![root.fibers.len() as usize, (root.fibers.len() + 1) as usize],
            },
        ),
        root.started(ctx, a, key, name, inject, config).started(
            other,
            b,
            key,
            again,
            inject,
            config,
        ).fibers.last().name == name,
{
    let once = root.started(ctx, a, key, name, inject, config);
    let twice = once.started(other, b, key, again, inject, config);
    let n = root.fibers.len();
    assert(seq![n as usize].push((n + 1) as usize) =~= seq![n as usize, (n + 1) as usize]);
    assert(twice.registry =~= root.registry.insert(
        key,
        RuntimeView { name, fibers: seq![n as usize, (n + 1) as usize] },
    ));
}

/// Disposing of the last fiber of a plugin removes its runtime, and only that;
/// as long as another fiber of it runs, the runtime stays.
pub proof fn law_runtime_goes_with_its_last_fiber(root: RootView, f: usize, key: u64)
    requires
        registry_wf(root.registry, root.fibers),
        runs(root.fibers, f as int, key),
    ensures
        root.registry[key].fibers.len() == 1 ==> root.disposed(f as int).registry
            == root.registry.remove(key),
        root.registry[key].fibers.len() > 1 ==> root.disposed(
            f as int,
        ).registry.contains_key(key),
{
    let list = root.registry[key].fibers;
    let left = without(list, f);
    lemma_without(list, f);
    assert(list.contains(f));
    if list.len() == 1 {
        assert(left.len() == 0) by {
            if left.len() > 0 {
                assert(left.contains(left[0]));
                let i = choose|i: int| 0 <= i < list.len() && list[i] == left[0];
                let j = choose|j: int| 0 <= j < list.len() && list[j] == f;
            }
        }
    } else {
        let at = choose|j: int| 0 <= j < list.len() && list[j] == f;
        let other = if at == 0 {
            1int
        } else {
            0int
        };
        assert(list[other] != list[at]);
        assert(list.contains(list[other]));
        assert(left.contains(list[other]));
        assert(left.len() > 0);
    }
}

/// Stopping disposes of every running plugin fiber, newest first.
pub proof fn law_stop_is_newest_first(root: RootView, n: int)
    requires
        0 <= n <= root.fibers.len() <= usize::MAX,
    ensures
        forall|i: int, j: int|
            0 <= i < j < root.running_below(n).len() ==> #[trigger] root.running_below(n)[i]
                > #[trigger] root.running_below(n)[j],
        forall|i: int|
            0 <= i < root.running_below(n).len() ==> 0 < (#[trigger] root.running_below(n)[i])
                && root.running_below(n)[i] < n && root.fibers[root.running_below(
                n,
            )[i] as int].uid is Some,
        forall|g: int|
            0 < g < n && (#[trigger] root.fibers[g]).uid is Some ==> root.running_below(
                n,
            ).contains(g as usize),
    decreases n,
{
    if n > 1 {
        law_stop_is_newest_first(root, n - 1);
        let rest = root.running_below(n - 1);
        let all = root.running_below(n);
        assert forall|g: int| 0 < g < n && (#[trigger] root.fibers[g]).uid is Some implies
            all.contains(g as usize) by {
            if g < n - 1 {
                assert(rest.contains(g as usize));
                let i = choose|i: int| 0 <= i < rest.len() && rest[i] == g as usize;
                if root.fibers[n - 1].uid is Some {
                    assert(all[i + 1] == g as usize);
                } else {
                    assert(all[i] == g as usize);
                }
            } else {
                assert(all[0] == g as usize);
            }
        }
    }
}

/// A disposed provider provides nothing any more: from the moment of its
/// disposal nobody resolves to it, even before it has unloaded.
pub proof fn law_disposed_provider_is_not_live(root: RootView, f: int)
    requires
        0 < f < root.fibers.len() <= u64::MAX,
    ensures
        !root.disposed(f).provider_live(f as u64),
        root.disposed(f).fibers[f].state == FiberState::Disposed,
        root.disposed(f).fibers[f].desired == inactive(),
{
}

} // verus!
