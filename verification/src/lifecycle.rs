//! The transitions of one fiber.

use vstd::prelude::*;
use vstd::string::*;

use crate::context::Context;
use crate::error::{CordisCode, Error, ErrorView};
use crate::fiber::{
    disposal_order, disposers_view, effect_at, effects_wf, epoch_of, epoch_text, has_effect,
    id_after, inactive, lemma_ids_taken, live, providers, slot_view, smallest_free, without_effect,
    Disposer, DisposerView, DriveState, Effect, EffectView, Fiber, FiberState, FiberView,
    ProviderSnapshot,
};
use crate::json::Json;
use crate::names::NameMap;
use crate::plugin::{service_names, Injection};
use crate::text::{decimal, texts};

verus! {

/// Epoch of a fiber that must not run: required services are missing.
pub const EPOCH_INACTIVE: &'static str = "";

/// What the driver of a fiber has to do next.
pub enum DriveStep {
    /// The fiber has converged; the driver ends.
    Settle,
    /// Unload; `forced` says that a restart asked for it.
    Unload { forced: bool },
    /// There is nothing to load; look again.
    Park,
    /// Load with this epoch.
    Load { target: String },
}

/// A [`DriveStep`] as it is spoken of.
pub enum DriveStepView {
    Settle,
    Unload { forced: bool },
    Park,
    Load { target: Seq<char> },
}

impl View for DriveStep {
    type V = DriveStepView;

    open spec fn view(&self) -> DriveStepView {
        match *self {
            DriveStep::Settle => DriveStepView::Settle,
            DriveStep::Unload { forced } => DriveStepView::Unload { forced },
            DriveStep::Park => DriveStepView::Park,
            DriveStep::Load { target } => DriveStepView::Load { target: target@ },
        }
    }
}

impl FiberView {
    /// The fiber has not converged yet.
    pub open spec fn busy(self) -> bool {
        self.dirty || self.loaded != self.desired
    }

    /// The lifecycle state that the flags of the fiber amount to.
    pub open spec fn derived(self) -> FiberState {
        if self.uid is None {
            FiberState::Disposed
        } else if self.busy() {
            if self.desired == inactive() {
                FiberState::Unloading
            } else {
                FiberState::Loading
            }
        } else if self.loaded != inactive() {
            FiberState::Active
        } else if self.error is Some {
            FiberState::Failed
        } else {
            FiberState::Pending
        }
    }

    /// The state mirror republished.
    pub open spec fn cached(self) -> FiberView {
        FiberView { state: self.derived(), ..self }
    }

    /// The epoch that the snapshots call for.
    pub open spec fn epoch(self) -> Seq<char> {
        epoch_of(self.inject, self.store)
    }

    /// A request for this epoch changes anything.
    pub open spec fn accepts(self, desired: Seq<char>) -> bool {
        self.desired != desired || self.dirty
    }

    /// A new epoch is desired, and a driver runs. A fiber that must stop
    /// running will unload what it has loaded or is loading, even if its
    /// services are back before the driver looks: it has to see them fresh.
    pub open spec fn requested(self, desired: Seq<char>) -> FiberView {
        FiberView {
            desired,
            dirty: true,
            running: true,
            force: self.force || desired == inactive(),
            ..self
        }
    }

    /// The epoch that the snapshots call for is asked for, and the request
    /// made known; nothing where it changes nothing.
    pub open spec fn refreshing(self) -> FiberView {
        if self.accepts(self.epoch()) {
            self.requested(self.epoch()).cached()
        } else {
            self
        }
    }

    /// One dependency snapshot updated.
    pub open spec fn remembering(
        self,
        name: Seq<char>,
        snapshot: Option<ProviderSnapshot>,
    ) -> FiberView {
        FiberView {
            store: match snapshot {
                Some(s) => self.store.insert(name, s),
                None => self.store.remove(name),
            },
            ..self
        }
    }

    /// Effects may be created: the fiber is neither disposed nor unloading.
    pub open spec fn accepts_effects(self) -> bool {
        self.uid is Some && self.state != FiberState::Unloading && self.state
            != FiberState::Disposed
    }

    /// One effect registered; without a disposer only its id is used up.
    pub open spec fn with_effect(
        self,
        label: Seq<char>,
        disposer: Option<DisposerView>,
    ) -> FiberView {
        let effects = match disposer {
            Some(d) => self.effects.push(
                Some(EffectView { id: self.next_effect_id, label, disposer: d }),
            ),
            None => self.effects,
        };
        FiberView { effects, next_effect_id: id_after(effects, self.next_effect_id), ..self }
    }

    /// A plugin fiber that is to run desires what its snapshots call for: it
    /// holds one of every required service.
    pub open spec fn equipped(self) -> bool {
        self.runtime is Some && self.desired != inactive() ==> self.desired == self.epoch()
    }

    /// A fiber that counts as active has converged, and something is loaded.
    pub open spec fn mirrored(self) -> bool {
        self.state == FiberState::Active ==> !self.dirty && self.loaded == self.desired
            && self.loaded != inactive()
    }

    /// A fiber with work left has a driver.
    pub open spec fn attended(self) -> bool {
        self.unsettled() || self.force ==> self.running
    }

    /// What holds of a fiber whenever no transition is under way.
    pub open spec fn sound(self) -> bool {
        self.equipped() && self.mirrored() && self.attended()
    }

    /// What the driver has to do next.
    pub open spec fn step(self) -> DriveStepView {
        if self.desired == self.loaded && !self.force {
            DriveStepView::Settle
        } else if self.loaded != inactive() {
            DriveStepView::Unload { forced: self.force }
        } else if self.desired == inactive() {
            DriveStepView::Park
        } else {
            DriveStepView::Load { target: self.desired }
        }
    }

    /// The fiber once its driver has looked at it.
    pub open spec fn stepped(self) -> FiberView {
        match self.step() {
            DriveStepView::Settle => FiberView { dirty: false, running: false, ..self },
            DriveStepView::Unload { .. } => FiberView { dirty: false, ..self },
            // With nothing loaded there is nothing to unload first.
            _ => FiberView { dirty: false, force: false, ..self },
        }
    }

    /// Unloading is over: nothing loaded; a forced unload has honoured the
    /// request for it. The snapshots stay with a fiber that loads again.
    pub open spec fn unloaded(self, forced: bool) -> FiberView {
        FiberView {
            store: if self.desired == inactive() {
                Map::empty()
            } else {
                self.store
            },
            loaded: inactive(),
            force: self.force && !forced,
            ..self
        }
    }

    /// The plugin body completed.
    pub open spec fn loaded_with(self, target: Seq<char>) -> FiberView {
        FiberView { error: None, loaded: target, ..self }
    }

    /// Startup failed: park until the next request.
    pub open spec fn failed_with(self, error: ErrorView) -> FiberView {
        FiberView { error: Some(error), loaded: inactive(), desired: inactive(), ..self }
    }

    /// A restart asked for.
    pub open spec fn restarting(self) -> FiberView {
        FiberView { error: None, force: true, dirty: true, running: true, ..self }
    }
}

/// A freshly created fiber: active from the start if an epoch is loaded, else
/// pending.
pub open spec fn fresh_fiber(
    uid: u64,
    runtime: Option<u64>,
    name: Seq<char>,
    inject: Seq<Seq<char>>,
    ctx: Context,
    raw_config: Json,
    epoch: Seq<char>,
) -> FiberView {
    FiberView {
        uid: Some(uid),
        runtime,
        name,
        inject,
        ctx,
        raw_config,
        config: Json::Null,
        error: None,
        store: Map::empty(),
        loaded: epoch,
        effects: Seq::empty(),
        next_effect_id: 1,
        desired: epoch,
        dirty: false,
        force: false,
        running: false,
        state: if epoch == inactive() {
            FiberState::Pending
        } else {
            FiberState::Active
        },
    }
}

impl Fiber {
    pub open spec fn wf(&self) -> bool {
        &&& self.store.wf()
        &&& effects_wf(self@.effects, self.next_effect_id)
    }

    /// A fiber that is bound to `ctx` and has not been asked to run yet.
    pub fn blank(
        uid: u64,
        runtime: Option<u64>,
        name: String,
        inject: Vec<Injection>,
        ctx: Context,
        raw_config: Json,
        epoch: String,
    ) -> (res: Fiber)
        ensures
            res.wf(),
            res@ == fresh_fiber(
                uid,
                runtime,
                name@,
                service_names(inject@),
                ctx,
                raw_config,
                epoch@,
            ),
    {
        let loaded: String = epoch.clone();
        let idle: String = EPOCH_INACTIVE.to_owned();
        proof {
            reveal_strlit("");
            assert(idle@ =~= inactive());
        }
        let state: FiberState = if epoch == idle {
            FiberState::Pending
        } else {
            FiberState::Active
        };
        let res: Fiber = Fiber {
            uid: Some(uid),
            runtime,
            name,
            inject,
            ctx,
            raw_config,
            config: Json::Null,
            error: None,
            store: NameMap::new(),
            loaded,
            disposables: Vec::new(),
            next_effect_id: 1,
            driver: DriveState { desired: epoch, dirty: false, force: false, running: false },
            state_cache: state.repr(),
        };
        assert(res@.effects =~= Seq::empty());
        res
    }

    /// The root fiber: uid 0, always active, no plugin.
    pub fn new_root(ctx: Context) -> (res: Fiber)
        ensures
            res.wf(),
            res@ == fresh_fiber(0, None, "root"@, Seq::empty(), ctx, Json::Null, ":root"@),
    {
        let res: Fiber = Fiber::blank(
            0,
            None,
            "root".to_owned(),
            Vec::new(),
            ctx,
            Json::Null,
            ":root".to_owned(),
        );
        assert(res@.inject =~= Seq::empty());
        res
    }

    /// A plugin fiber, waiting for its required services.
    pub fn new_child(
        runtime: u64,
        name: String,
        inject: Vec<Injection>,
        config: Json,
        uid: u64,
        ctx: Context,
    ) -> (res: Fiber)
        ensures
            res.wf(),
            res@ == fresh_fiber(
                uid,
                Some(runtime),
                name@,
                service_names(inject@),
                ctx,
                config,
                inactive(),
            ),
    {
        Fiber::blank(uid, Some(runtime), name, inject, ctx, config, String::new())
    }

    /// Current lifecycle state: a read of the mirror.
    pub fn state(&self) -> (res: FiberState)
        ensures
            res == self@.state,
    {
        match FiberState::from_repr(self.state_cache) {
            Some(state) => state,
            None => FiberState::Pending,
        }
    }

    /// Derive the lifecycle state from the live flags.
    pub fn compute_state(&self) -> (res: FiberState)
        ensures
            res == self@.derived(),
    {
        if self.uid.is_none() {
            return FiberState::Disposed;
        }
        let idle: String = EPOCH_INACTIVE.to_owned();
        proof {
            reveal_strlit("");
            assert(idle@ =~= inactive());
        }
        let busy: bool = self.driver.dirty || self.loaded != self.driver.desired;
        if self.error.is_some() && self.loaded == idle && !busy {
            return FiberState::Failed;
        }
        if busy {
            return if self.driver.desired == idle {
                FiberState::Unloading
            } else {
                FiberState::Loading
            };
        }
        if self.loaded != idle {
            return FiberState::Active;
        }
        FiberState::Pending
    }

    /// Republish the derived state into the mirror.
    pub fn cache_state(&mut self) -> (res: FiberState)
        requires
            old(self).wf(),
        ensures
            final(self).wf(),
            final(self)@ == old(self)@.cached(),
            res == old(self)@.derived(),
    {
        let state: FiberState = self.compute_state();
        self.state_cache = state.repr();
        assert(self@ =~= old(self)@.cached());
        state
    }

    /// Fail if the fiber has already been disposed.
    pub fn assert_active(&self) -> (res: Result<(), Error>)
        ensures
            self@.uid is Some ==> res is Ok,
            self@.uid is None ==> (res matches Err(Error::Coded(e)) && e.code
                == CordisCode::InactiveEffect && e.message@ == CordisCode::InactiveEffect.text()),
    {
        if self.uid.is_some() {
            Ok(())
        } else {
            Err(Error::coded(CordisCode::InactiveEffect))
        }
    }

    /// Fail unless effects may be created on this fiber.
    pub fn effect_allowed(&self) -> (res: Result<(), Error>)
        ensures
            self@.accepts_effects() ==> res is Ok,
            !self@.accepts_effects() ==> (res matches Err(Error::Coded(e)) && e.code
                == CordisCode::InactiveEffect && e.message@ == CordisCode::InactiveEffect.text()),
    {
        let state: FiberState = self.state();
        if self.uid.is_none() || state == FiberState::Unloading || state == FiberState::Disposed {
            return Err(Error::coded(CordisCode::InactiveEffect));
        }
        Ok(())
    }

    /// The id that is handed out after `id`.
    fn id_after(&self, id: u64) -> (res: u64)
        ensures
            res == id_after(self@.effects, id),
            !has_effect(self@.effects, res),
    {
        if id < u64::MAX {
            let next: u64 = id + 1;
            if !self.is_live(next) {
                return next;
            }
        }
        let ghost effects = self@.effects;
        let mut free: u64 = 0;
        while self.is_live(free)
            invariant
                effects == self@.effects,
                effects.len() == self.disposables.len(),
                forall|k: u64| k < free ==> #[trigger] has_effect(effects, k),
            decreases u64::MAX - free,
        {
            proof {
                assert forall|k: u64| k < free + 1 implies #[trigger] has_effect(effects, k) by {
                    if k == free {
                        assert(has_effect(effects, free));
                    }
                }
                lemma_ids_taken(effects, free + 1);
            }
            free = free + 1;
        }
        proof {
            assert(smallest_free(effects, free));
            let chosen = choose|k: u64| smallest_free(effects, k);
            assert(smallest_free(effects, chosen));
            if chosen < free {
                assert(has_effect(effects, chosen));
            }
            if free < chosen {
                assert(has_effect(effects, free));
            }
        }
        free
    }

    /// Register an effect whose setup is done; gives its id.
    pub fn register_effect(&mut self, label: String, disposer: Option<Disposer>) -> (res: u64)
        requires
            old(self).wf(),
        ensures
            final(self).wf(),
            res == old(self)@.next_effect_id,
            final(self)@ == old(self)@.with_effect(
                label@,
                match disposer {
                    Some(d) => Some(d@),
                    None => None,
                },
            ),
    {
        let ghost before = self@;
        let id: u64 = self.next_effect_id;
        if let Some(disposer) = disposer {
            let ghost view = EffectView { id, label: label@, disposer: disposer@ };
            self.disposables.push(Some(Effect { id, label, disposer }));
            proof {
                assert(self@.effects =~= before.effects.push(Some(view)));
                assert forall|i: int, k: u64| #[trigger]
                    effect_at(self@.effects, i, k) && i < before.effects.len() implies effect_at(
                    before.effects,
                    i,
                    k,
                ) && k != id by {
                    assert(effect_at(before.effects, i, k));
                }
            }
        }
        self.next_effect_id = self.id_after(id);
        id
    }

    /// Take the live effect `id` out of the list, leaving its slot empty.
    pub fn take_effect(&mut self, id: u64) -> (res: Option<Disposer>)
        requires
            old(self).wf(),
        ensures
            final(self).wf(),
            final(self)@ == (FiberView {
                effects: without_effect(old(self)@.effects, id),
                ..old(self)@
            }),
            match res {
                Some(d) => exists|i: int| #[trigger]
                    effect_at(old(self)@.effects, i, id) && old(
                        self,
                    )@.effects[i].unwrap().disposer == d@,
                None => !has_effect(old(self)@.effects, id),
            },
    {
        let ghost before = self@;
        let mut i: usize = 0;
        while i < self.disposables.len()
            invariant
                i <= self.disposables@.len(),
                *self == *old(self),
                before == self@,
                self.wf(),
                forall|j: int| 0 <= j < i ==> !#[trigger] effect_at(before.effects, j, id),
            decreases self.disposables@.len() - i,
        {
            let found: bool = match &self.disposables[i] {
                Some(effect) => effect.id == id,
                None => false,
            };
            assert(before.effects[i as int] == slot_view(self.disposables@[i as int]));
            if found {
                let taken: Option<Effect> = self.disposables[i].take();
                proof {
                    assert(effect_at(before.effects, i as int, id));
                    assert forall|j: int| 0 <= j < before.effects.len() implies #[trigger]
                        self@.effects[j] == without_effect(before.effects, id)[j] by {
                        if j != i {
                            assert(!effect_at(before.effects, j, id)) by {
                                if effect_at(before.effects, j, id) {
                                    assert(effect_at(before.effects, i as int, id));
                                }
                            }
                        }
                    }
                    assert(self@.effects =~= without_effect(before.effects, id));
                    lemma_without_effect_wf(before.effects, id, self.next_effect_id);
                }
                return match taken {
                    Some(effect) => Some(effect.disposer),
                    None => None,
                };
            }
            i = i + 1;
        }
        proof {
            assert forall|j: int| 0 <= j < before.effects.len() implies #[trigger]
                self@.effects[j] == without_effect(before.effects, id)[j] by {
                assert(!effect_at(before.effects, j, id));
            }
            assert(self@.effects =~= without_effect(before.effects, id));
        }
        None
    }

    /// Take every live effect out, newest first.
    pub fn take_effects(&mut self) -> (res: Vec<Disposer>)
        requires
            old(self).wf(),
        ensures
            final(self).wf(),
            final(self)@ == (FiberView { effects: Seq::empty(), ..old(self)@ }),
            disposers_view(res@) == disposal_order(old(self)@.effects),
    {
        let ghost before = self@;
        let mut taken: Vec<Disposer> = Vec::new();
        assert(disposers_view(taken@) + disposal_order(self@.effects)
            =~= disposal_order(before.effects));
        while self.disposables.len() > 0
            invariant
                before == old(self)@,
                self.store.wf(),
                self@ == (FiberView { effects: self@.effects, ..before }),
                disposers_view(taken@) + disposal_order(self@.effects)
                    == disposal_order(before.effects),
            decreases self.disposables@.len(),
        {
            let ghost slots = self@.effects;
            let ghost order = disposers_view(taken@);
            let slot: Option<Option<Effect>> = self.disposables.pop();
            assert(self@.effects =~= slots.drop_last());
            if let Some(Some(effect)) = slot {
                assert(slots.last() == Some(effect@));
                taken.push(effect.disposer);
                proof {
                    assert(disposers_view(taken@) =~= order.push(effect.disposer@));
                    assert(order + disposal_order(slots) =~= order.push(effect.disposer@)
                        + disposal_order(self@.effects));
                }
            } else {
                assert(slots.last() is None);
            }
        }
        assert(self@.effects =~= Seq::empty());
        assert(disposers_view(taken@) =~= disposal_order(before.effects));
        taken
    }

    /// The effect `id` is live.
    pub fn is_live(&self, id: u64) -> (res: bool)
        ensures
            res == has_effect(self@.effects, id),
    {
        let mut i: usize = 0;
        while i < self.disposables.len()
            invariant
                i <= self.disposables@.len(),
                forall|j: int| 0 <= j < i ==> !#[trigger] effect_at(self@.effects, j, id),
            decreases self.disposables@.len() - i,
        {
            assert(self@.effects[i as int] == slot_view(self.disposables@[i as int]));
            if let Some(effect) = &self.disposables[i] {
                if effect.id == id {
                    assert(effect_at(self@.effects, i as int, id));
                    return true;
                }
            }
            i = i + 1;
        }
        false
    }

    /// Number of live effects.
    pub fn effect_count(&self) -> (res: usize)
        ensures
            res == live(self@.effects).len(),
    {
        let labels: Vec<String> = self.effect_metas();
        assert(texts(labels@).len() == labels@.len());
        labels.len()
    }

    /// Labels of every live effect, in registration order.
    pub fn effect_metas(&self) -> (res: Vec<String>)
        ensures
            texts(res@) == live(self@.effects).map_values(
                |e: EffectView| e.label,
            ),
    {
        let mut labels: Vec<String> = Vec::new();
        let ghost all = self@.effects;
        let mut i: usize = 0;
        assert(texts(labels@) =~= live(all.take(0)).map_values(
            |e: EffectView| e.label,
        ));
        while i < self.disposables.len()
            invariant
                i <= self.disposables@.len(),
                all == self@.effects,
                all.len() == self.disposables@.len(),
                texts(labels@) == live(all.take(i as int)).map_values(
                    |e: EffectView| e.label,
                ),
            decreases self.disposables@.len() - i,
        {
            let ghost before = texts(labels@);
            proof {
                let next = all.take(i + 1);
                assert(next.drop_last() =~= all.take(i as int));
                assert(next.last() == slot_view(self.disposables@[i as int]));
            }
            if let Some(effect) = &self.disposables[i] {
                labels.push(effect.label.clone());
                proof {
                    assert(texts(labels@) =~= before.push(effect.label@));
                    assert(live(all.take(i + 1)).map_values(|e: EffectView| e.label) =~= live(
                        all.take(i as int),
                    ).map_values(|e: EffectView| e.label).push(effect.label@));
                }
            }
            i = i + 1;
        }
        assert(all.take(all.len() as int) =~= all);
        labels
    }

    /// The epoch that the snapshots call for.
    pub fn epoch(&self) -> (res: String)
        requires
            self.wf(),
        ensures
            res@ == self@.epoch(),
    {
        let ghost names = self@.inject;
        let ghost all = providers(names, self.store@);
        let mut epoch: String = ":".to_owned();
        proof {
            reveal_strlit(":");
            assert(epoch@ =~= epoch_text(all.take(0)));
        }
        let mut i: usize = 0;
        while i < self.inject.len()
            invariant
                i <= self.inject@.len(),
                self.wf(),
                names == service_names(self.inject@),
                all == providers(names, self.store@),
                epoch@ == epoch_text(all.take(i as int)),
                forall|j: int| 0 <= j < i ==> self.store@.contains_key(#[trigger] names[j]),
            decreases self.inject@.len() - i,
        {
            assert(names[i as int] == self.inject@[i as int].service@);
            match self.store.get(self.inject[i].service.as_str()) {
                Some(snapshot) => {
                    epoch.append(":");
                    let uid: String = decimal(snapshot.provider_uid);
                    epoch.append(uid.as_str());
                    proof {
                        let next = all.take(i + 1);
                        assert(next.drop_last() =~= all.take(i as int));
                        assert(next.last() == snapshot.provider_uid);
                        reveal_strlit(":");
                        assert(epoch@ =~= epoch_text(next));
                    }
                },
                None => {
                    return String::new();
                },
            }
            i = i + 1;
        }
        assert(all.take(all.len() as int) =~= all);
        epoch
    }

    /// Ask for an epoch. Gives nothing where this changes nothing, else
    /// whether a driver has to be started.
    pub fn request(&mut self, desired: String) -> (res: Option<bool>)
        requires
            old(self).wf(),
        ensures
            final(self).wf(),
            !old(self)@.accepts(desired@) ==> res is None && final(self)@ == old(self)@,
            old(self)@.accepts(desired@) ==> res == Some(!old(self)@.running) && final(self)@
                == old(self)@.requested(desired@),
    {
        let ghost before = self@;
        if self.driver.desired == desired && !self.driver.dirty {
            return None;
        }
        let idle: String = EPOCH_INACTIVE.to_owned();
        proof {
            reveal_strlit("");
            assert(idle@ =~= inactive());
        }
        let start: bool = !self.driver.running;
        if desired == idle {
            self.driver.force = true;
        }
        self.driver.desired = desired;
        self.driver.dirty = true;
        self.driver.running = true;
        assert(self@ =~= before.requested(desired@));
        Some(start)
    }

    /// Update one dependency snapshot; says whether the service is there.
    pub fn remember(&mut self, name: &str, snapshot: Option<ProviderSnapshot>) -> (res: bool)
        requires
            old(self).wf(),
        ensures
            final(self).wf(),
            final(self)@ == old(self)@.remembering(name@, snapshot),
            res == (snapshot is Some),
    {
        let ghost before = self@;
        match snapshot {
            Some(s) => {
                self.store.insert(name, s);
                assert(self@ =~= before.remembering(name@, snapshot));
                true
            },
            None => {
                self.store.remove(name);
                assert(self@ =~= before.remembering(name@, snapshot));
                false
            },
        }
    }

    /// Look at the fiber on behalf of its driver: what has to be done next.
    pub fn drive_step(&mut self) -> (res: DriveStep)
        requires
            old(self).wf(),
        ensures
            final(self).wf(),
            final(self)@ == old(self)@.stepped(),
            res@ == old(self)@.step(),
    {
        let ghost before = self@;
        let idle: String = EPOCH_INACTIVE.to_owned();
        proof {
            reveal_strlit("");
            assert(idle@ =~= inactive());
        }
        self.driver.dirty = false;
        let forced: bool = self.driver.force;
        if self.driver.desired == self.loaded && !forced {
            self.driver.running = false;
            assert(self@ =~= before.stepped());
            return DriveStep::Settle;
        }
        if self.loaded != idle {
            assert(self@ =~= before.stepped());
            return DriveStep::Unload { forced };
        }
        self.driver.force = false;
        if self.driver.desired == idle {
            assert(self@ =~= before.stepped());
            return DriveStep::Park;
        }
        assert(self@ =~= before.stepped());
        DriveStep::Load { target: self.driver.desired.clone() }
    }

    /// Unloading is over.
    pub fn mark_unloaded(&mut self, forced: bool)
        requires
            old(self).wf(),
        ensures
            final(self).wf(),
            final(self)@ == old(self)@.unloaded(forced),
    {
        let ghost before = self@;
        let idle: String = EPOCH_INACTIVE.to_owned();
        proof {
            reveal_strlit("");
            assert(idle@ =~= inactive());
        }
        if self.driver.desired == idle {
            self.store.clear();
        }
        self.loaded = String::new();
        if forced {
            self.driver.force = false;
        }
        assert(self@ =~= before.unloaded(forced));
    }

    /// The plugin body completed.
    pub fn mark_loaded(&mut self, target: String)
        requires
            old(self).wf(),
        ensures
            final(self).wf(),
            final(self)@ == old(self)@.loaded_with(target@),
    {
        let ghost before = self@;
        self.error = None;
        self.loaded = target;
        assert(self@ =~= before.loaded_with(target@));
    }

    /// Startup failed.
    pub fn mark_failed(&mut self, error: Error)
        requires
            old(self).wf(),
        ensures
            final(self).wf(),
            final(self)@ == old(self)@.failed_with(error.deep()),
    {
        let ghost before = self@;
        self.error = Some(error);
        self.loaded = String::new();
        self.driver.desired = String::new();
        assert(self@ =~= before.failed_with(error.deep()));
    }

    /// Ask for a round trip; says whether a driver has to be started.
    pub fn mark_restarting(&mut self) -> (res: bool)
        requires
            old(self).wf(),
        ensures
            final(self).wf(),
            final(self)@ == old(self)@.restarting(),
            res == !old(self)@.running,
    {
        let ghost before = self@;
        let start: bool = !self.driver.running;
        self.error = None;
        self.driver.force = true;
        self.driver.dirty = true;
        self.driver.running = true;
        assert(self@ =~= before.restarting());
        start
    }
}

proof fn lemma_without_effect_wf(effects: Seq<Option<EffectView>>, id: u64, next: u64)
    requires
        effects_wf(effects, next),
    ensures
        effects_wf(without_effect(effects, id), next),
{
    let left = without_effect(effects, id);
    assert forall|i: int, k: u64| #[trigger] effect_at(left, i, k) implies effect_at(
        effects,
        i,
        k,
    ) by {
        assert(left[i] == if effects[i] matches Some(e) && e.id == id {
            None
        } else {
            effects[i]
        });
    }
}

} // verus!
