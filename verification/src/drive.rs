//! Reactive convergence: how the kernel drives a fiber.
//!
//! A driver is whoever runs the loop: it asks [`RootState::drive`] what to do
//! next, performs it (runs disposers, resolves the config, runs the plugin
//! body) and reports back. Every decision and every change of state is made
//! here.

use vstd::prelude::*;

use crate::context::Context;
use crate::error::{CordisCode, Error};
use crate::fiber::{
    disposal_order, disposers_view, inactive, Disposer, DisposerView, FiberState, FiberView,
};
use crate::json::Json;
use crate::lifecycle::{DriveStep, DriveStepView};
use crate::logger::LogLevel;
use crate::root::{
    bit, bits_wf, fibers_wf, lemma_all_sound, lemma_clear_bit, lemma_set_bit, registry_wf, runs,
    Command, CommandView, RootState, RootView, RuntimeView,
};
use crate::service::{keys_view, provides};
use crate::text::join3;

verus! {

/// What the driver of a fiber has to do.
pub enum DriveAction {
    /// The fiber has converged: the driver ends.
    Done,
    /// Run these disposers one after another, then report the unload done.
    Unload { forced: bool, disposers: Vec<Disposer> },
    /// Nothing to perform: ask again.
    Again,
    /// Resolve the config and run the plugin body for this epoch.
    Load { target: String },
}

/// A [`DriveAction`] as it is spoken of.
pub enum DriveActionView {
    Done,
    Unload { forced: bool, disposers: Seq<DisposerView> },
    Again,
    Load { target: Seq<char> },
}

impl View for DriveAction {
    type V = DriveActionView;

    open spec fn view(&self) -> DriveActionView {
        match *self {
            DriveAction::Done => DriveActionView::Done,
            DriveAction::Unload { forced, disposers } => DriveActionView::Unload {
                forced,
                disposers: disposers_view(disposers@),
            },
            DriveAction::Again => DriveActionView::Again,
            DriveAction::Load { target } => DriveActionView::Load { target: target@ },
        }
    }
}

impl RootView {
    /// An epoch asked for: nothing where it is desired already, else the
    /// driver is started if need be and the transition is announced.
    pub open spec fn requested(self, f: int, desired: Seq<char>) -> RootView {
        let fiber = self.fibers[f];
        if !fiber.accepts(desired) {
            self
        } else {
            let changed = self.with_fiber(f, fiber.requested(desired));
            if fiber.running {
                changed.announced(f)
            } else {
                changed.post(CommandView::Drive(f)).announced(f)
            }
        }
    }

    /// The epoch that the snapshots of `f` call for asked for.
    pub open spec fn refreshed(self, f: int) -> RootView {
        self.requested(f, self.fibers[f].epoch())
    }

    /// The driver of `f` has looked at it.
    pub open spec fn driven(self, f: int) -> RootView {
        let fiber = self.fibers[f];
        let looked = self.with_fiber(f, fiber.stepped());
        match fiber.step() {
            DriveStepView::Settle => looked.announced(f),
            DriveStepView::Unload { .. } => looked.published(f).with_fiber(
                f,
                FiberView { effects: Seq::empty(), ..fiber.stepped() },
            ),
            DriveStepView::Park => looked.cached(f),
            DriveStepView::Load { target } => if fiber.runtime is None {
                looked.published(f).with_fiber(f, FiberView { loaded: target, ..fiber.stepped() })
            } else {
                looked.published(f).renewing(f)
            },
        }
    }

    /// What the driver of `f` has to do.
    pub open spec fn drive_action(self, f: int) -> DriveActionView {
        let fiber = self.fibers[f];
        match fiber.step() {
            DriveStepView::Settle => DriveActionView::Done,
            DriveStepView::Unload { forced } => DriveActionView::Unload {
                forced,
                disposers: disposal_order(fiber.effects),
            },
            DriveStepView::Park => DriveActionView::Again,
            DriveStepView::Load { target } => if fiber.runtime is None {
                DriveActionView::Again
            } else {
                DriveActionView::Load { target }
            },
        }
    }

    /// Unloading of `f` is over.
    pub open spec fn unload_finished(self, f: int, forced: bool) -> RootView {
        self.with_fiber(f, self.fibers[f].unloaded(forced)).announced(f)
    }

    /// The plugin body of `f` completed; dependents are still to be told.
    pub open spec fn load_finished(self, f: int, target: Seq<char>) -> RootView {
        self.with_fiber(f, self.fibers[f].loaded_with(target)).cached(f)
    }

    /// Startup of `f` failed: logged, remembered, announced.
    pub open spec fn load_failed(self, f: int, error: Error) -> RootView {
        self.post(
            CommandView::Log {
                ctx: self.fibers[f].ctx,
                level: LogLevel::Error,
                topic: "fiber"@,
                code: error.code_text(),
                message: self.fibers[f].name + ": "@ + error.text(),
            },
        ).with_fiber(f, self.fibers[f].failed_with(error.deep())).announced(f)
    }

    /// A round trip of `f` asked for.
    pub open spec fn restarted(self, f: int) -> RootView {
        let fiber = self.fibers[f];
        let changed = self.with_fiber(f, fiber.restarting());
        let started = if fiber.running {
            changed
        } else {
            changed.post(CommandView::Drive(f))
        };
        started.settled(f).refreshed(f)
    }

    /// A new raw config taken over, and a round trip with it asked for.
    pub open spec fn updated(self, f: int, config: Json) -> RootView {
        self.with_fiber(f, FiberView { raw_config: config, ..self.fibers[f] }).restarted(f)
    }
}

/// Replacing a fiber by one with the same uid, plugin, context and mirrored
/// state keeps everything else in order.
pub proof fn lemma_quiet_update(before: RootState, after: RootState, f: int)
    requires
        before.core_wf(),
        0 <= f < before.fibers@.len(),
        after.fibers@ == before.fibers@.update(f, after.fibers@[f]),
        after.id == before.id,
        after.registry == before.registry,
        after.reflect == before.reflect,
        after.events == before.events,
        after.label_seed == before.label_seed,
        after.scope_seed == before.scope_seed,
        after.active_fibers == before.active_fibers,
        after.outbox == before.outbox,
        after.fibers@[f].wf(),
        after.fibers@[f]@.uid == before.fibers@[f]@.uid,
        after.fibers@[f]@.runtime == before.fibers@[f]@.runtime,
        after.fibers@[f]@.ctx == before.fibers@[f]@.ctx,
        after.fibers@[f]@.inject == before.fibers@[f]@.inject,
        after.fibers@[f]@.state == before.fibers@[f]@.state,
    ensures
        after.core_wf(),
        before.tidy() ==> after.tidy(),
        before.wf() && after.fibers@[f]@.sound() ==> after.wf(),
        after@ == before@.with_fiber(f, after.fibers@[f]@),
{
    assert(after@ =~= before@.with_fiber(f, after.fibers@[f]@));
    assert forall|i: int| 0 <= i < after@.fibers.len() implies (#[trigger] after@.fibers[i]).uid
        == before@.fibers[i].uid && after@.fibers[i].runtime == before@.fibers[i].runtime
        && after@.fibers[i].ctx == before@.fibers[i].ctx && after@.fibers[i].state
        == before@.fibers[i].state by {}
    assert(fibers_wf(after@.fibers));
    assert(bits_wf(after.active_fibers, after@.fibers));
    if before.tidy() {
        lemma_registry_kept(before@.registry, before@.fibers, after@.fibers);
    }
    if before.wf() && after.fibers@[f]@.sound() {
        lemma_all_sound(before@.fibers, after@.fibers, f);
    }
}

/// The registry agrees with the fibers as long as no uid or plugin changes.
proof fn lemma_registry_kept(
    registry: Map<u64, RuntimeView>,
    before: Seq<FiberView>,
    after: Seq<FiberView>,
)
    requires
        registry_wf(registry, before),
        before.len() == after.len(),
        forall|i: int|
            0 <= i < after.len() ==> (#[trigger] after[i]).uid == before[i].uid
                && after[i].runtime == before[i].runtime,
    ensures
        registry_wf(registry, after),
{
    assert forall|i: int, key: u64| #[trigger] runs(after, i, key) == runs(before, i, key) by {}
    assert forall|key: u64, i: usize|
        #![trigger registry[key].fibers.contains(i)]
        registry.contains_key(key) && registry[key].fibers.contains(i) implies runs(
        after,
        i as int,
        key,
    ) by {
        assert(runs(before, i as int, key));
    }
}

impl RootState {
    /// Republish the derived state of `f` into its mirror and into the
    /// bitmask of active fibers.
    pub fn cache_state(&mut self, f: usize) -> (res: FiberState)
        requires
            old(self).core_wf(),
            old(self).has_fiber(f),
        ensures
            final(self).core_wf(),
            old(self).tidy() ==> final(self).tidy(),
            old(self).wf() ==> final(self).wf(),
            final(self)@ == old(self)@.cached(f as int),
            res == old(self)@.fibers[f as int].derived(),
    {
        let ghost before = *self;
        let state: FiberState = self.fibers[f].cache_state();
        if let Some(uid) = self.fibers[f].uid {
            assert(before@.fibers[f as int].uid == Some(f as u64));
            if uid < 64 {
                if state == FiberState::Active {
                    self.active_fibers = self.active_fibers | (1u64 << uid);
                } else {
                    self.active_fibers = self.active_fibers & !(1u64 << uid);
                }
            }
        }
        proof {
            assert(self@ =~= before@.cached(f as int));
            assert forall|i: u64| i < 64 implies #[trigger] bit(self.active_fibers, i) == (i
                < self@.fibers.len() && self@.fibers[i as int].is_up()) by {
                assert(bit(before.active_fibers, i) == (i < before@.fibers.len()
                    && before@.fibers[i as int].is_up()));
                if f < 64 {
                    lemma_set_bit(before.active_fibers, f as u64, i);
                    lemma_clear_bit(before.active_fibers, f as u64, i);
                }
            }
            if before.tidy() {
                lemma_registry_kept(before@.registry, before@.fibers, self@.fibers);
            }
            if before.wf() {
                lemma_all_sound(before@.fibers, self@.fibers, f as int);
            }
        }
        state
    }

    /// Make a transition of `f` known: mirror, waiters, observers.
    pub fn announce(&mut self, f: usize)
        requires
            old(self).core_wf(),
            old(self).has_fiber(f),
        ensures
            final(self).core_wf(),
            old(self).tidy() ==> final(self).tidy(),
            old(self).wf() ==> final(self).wf(),
            final(self)@ == old(self)@.announced(f as int),
    {
        self.cache_state(f);
        self.bump_settle(f);
        self.publish_state(f);
    }

    /// Ask for an epoch.
    pub fn request_epoch(&mut self, f: usize, desired: String)
        requires
            old(self).core_wf(),
            old(self).has_fiber(f),
        ensures
            final(self).core_wf(),
            old(self).tidy() ==> final(self).tidy(),
            old(self).wf() && (desired@ == inactive() || desired@
                == old(self)@.fibers[f as int].epoch()) ==> final(self).wf(),
            final(self)@ == old(self)@.requested(f as int, desired@),
    {
        let ghost before = *self;
        let ghost wanted = desired@;
        let answer: Option<bool> = self.fibers[f].request(desired);
        proof {
            lemma_quiet_update(before, *self, f as int);
        }
        match answer {
            None => {
                assert(self@ =~= before@);
            },
            Some(start) => {
                if start {
                    self.post(Command::Drive(f));
                }
                self.announce(f);
                proof {
                    if before.wf() && (wanted == inactive() || wanted
                        == before@.fibers[f as int].epoch()) {
                        lemma_all_sound(before@.fibers, self@.fibers, f as int);
                    }
                }
            },
        }
    }

    /// Recompute the desired epoch from the snapshots and ask for it.
    pub fn refresh(&mut self, f: usize)
        requires
            old(self).core_wf(),
            old(self).has_fiber(f),
        ensures
            final(self).core_wf(),
            old(self).tidy() ==> final(self).tidy(),
            old(self).wf() ==> final(self).wf(),
            final(self)@ == old(self)@.refreshed(f as int),
    {
        let desired: String = self.fibers[f].epoch();
        self.request_epoch(f, desired);
    }

    /// Look at `f` on behalf of its driver: what has to be done next.
    pub fn drive(&mut self, f: usize) -> (res: DriveAction)
        requires
            old(self).wf(),
            old(self).has_fiber(f),
        ensures
            final(self).wf(),
            final(self)@ == old(self)@.driven(f as int),
            res@ == old(self)@.drive_action(f as int),
    {
        let ghost before = *self;
        let ghost at = f as int;
        let step: DriveStep = self.fibers[f].drive_step();
        proof {
            lemma_quiet_update(before, *self, at);
        }
        match step {
            DriveStep::Settle => {
                self.announce(f);
                DriveAction::Done
            },
            DriveStep::Unload { forced } => {
                self.publish_state(f);
                let ghost published = *self;
                let disposers: Vec<Disposer> = self.fibers[f].take_effects();
                proof {
                    lemma_quiet_update(published, *self, at);
                }
                DriveAction::Unload { forced, disposers }
            },
            DriveStep::Park => {
                self.cache_state(f);
                DriveAction::Again
            },
            DriveStep::Load { target } => {
                self.publish_state(f);
                if self.fibers[f].runtime.is_none() {
                    let ghost published = *self;
                    let ghost epoch = target@;
                    self.fibers[f].loaded = target;
                    proof {
                        assert(self.fibers@[at]@ =~= (FiberView {
                            loaded: epoch,
                            ..published.fibers@[at]@
                        }));
                        lemma_quiet_update(published, *self, at);
                    }
                    DriveAction::Again
                } else {
                    self.renew(f);
                    DriveAction::Load { target }
                }
            },
        }
    }

    /// One disposer of `f` has run.
    pub fn disposer_done(&mut self, f: usize)
        requires
            old(self).wf(),
            old(self).has_fiber(f),
        ensures
            final(self).wf(),
            final(self)@ == old(self)@.settled(f as int),
    {
        self.bump_settle(f);
    }

    /// Every disposer of the unload has run.
    pub fn finish_unload(&mut self, f: usize, forced: bool)
        requires
            old(self).wf(),
            old(self).has_fiber(f),
            old(self)@.fibers[f as int].running,
        ensures
            final(self).wf(),
            final(self)@ == old(self)@.unload_finished(f as int, forced),
    {
        let ghost before = *self;
        self.fibers[f].mark_unloaded(forced);
        proof {
            lemma_quiet_update(before, *self, f as int);
        }
        self.announce(f);
    }

    /// Keep the resolved config with which the plugin body is about to run.
    pub fn set_config(&mut self, f: usize, config: Json)
        requires
            old(self).wf(),
            old(self).has_fiber(f),
            old(self)@.fibers[f as int].running,
        ensures
            final(self).wf(),
            final(self)@ == old(self)@.with_fiber(
                f as int,
                FiberView { config, ..old(self)@.fibers[f as int] },
            ),
    {
        let ghost before = *self;
        self.fibers[f].config = config;
        proof {
            assert(self.fibers@[f as int]@ =~= (FiberView { config, ..before.fibers@[f as int]@ }));
            lemma_quiet_update(before, *self, f as int);
        }
    }

    /// The plugin body completed: the services whose dependents have to be
    /// told, scope by scope, now that the provider is active.
    pub fn finish_load(&mut self, f: usize, target: String) -> (res: Vec<(String, u64)>)
        requires
            old(self).wf(),
            old(self).has_fiber(f),
            old(self)@.fibers[f as int].running,
        ensures
            final(self).wf(),
            final(self)@ == old(self)@.load_finished(f as int, target@),
            keys_view(res@).no_duplicates(),
            forall|key: (Seq<char>, u64)| #[trigger]
                keys_view(res@).contains(key) <==> (old(
                    self,
                )@.fibers[f as int].uid matches Some(uid) && provides(
                    old(self)@.services,
                    uid,
                    key,
                )),
    {
        let ghost before = *self;
        self.fibers[f].mark_loaded(target);
        proof {
            lemma_quiet_update(before, *self, f as int);
        }
        self.cache_state(f);
        self.provided_services(f)
    }

    /// The services that `f` provides at present, each scope by itself.
    pub fn provided_services(&self, f: usize) -> (res: Vec<(String, u64)>)
        requires
            self.wf(),
            self.has_fiber(f),
        ensures
            keys_view(res@).no_duplicates(),
            forall|key: (Seq<char>, u64)| #[trigger]
                keys_view(res@).contains(key) <==> (self@.fibers[f as int].uid matches Some(uid)
                    && provides(self@.services, uid, key)),
    {
        match self.fibers[f].uid {
            Some(uid) => self.reflect.provided_services(uid),
            None => Vec::new(),
        }
    }

    /// The dependents of a freshly loaded fiber have been notified.
    pub fn load_announced(&mut self, f: usize)
        requires
            old(self).wf(),
            old(self).has_fiber(f),
            old(self)@.fibers[f as int].running,
        ensures
            final(self).wf(),
            final(self)@ == old(self)@.settled(f as int).published(f as int),
    {
        self.bump_settle(f);
        self.publish_state(f);
    }

    /// Take what a failed plugin body managed to collect: the disposers to
    /// run before the failure is recorded, newest first.
    pub fn abort_load(&mut self, f: usize) -> (res: Vec<Disposer>)
        requires
            old(self).wf(),
            old(self).has_fiber(f),
            old(self)@.fibers[f as int].running,
        ensures
            final(self).wf(),
            final(self)@ == old(self)@.with_fiber(
                f as int,
                FiberView { effects: Seq::empty(), ..old(self)@.fibers[f as int] },
            ),
            disposers_view(res@) == disposal_order(old(self)@.fibers[f as int].effects),
    {
        let ghost before = *self;
        let disposers: Vec<Disposer> = self.fibers[f].take_effects();
        proof {
            lemma_quiet_update(before, *self, f as int);
        }
        disposers
    }

    /// Record a startup failure and park the fiber until its dependencies
    /// change.
    pub fn fail_load(&mut self, f: usize, error: Error)
        requires
            old(self).wf(),
            old(self).has_fiber(f),
            old(self)@.fibers[f as int].running,
        ensures
            final(self).wf(),
            final(self)@ == old(self)@.load_failed(f as int, error),
    {
        let code: Option<String> = match error.code() {
            Some(code) => Some(code.to_owned()),
            None => None,
        };
        let text: String = error.render();
        let message: String = join3(self.fibers[f].name.as_str(), ": ", text.as_str());
        let ctx: Context = self.fibers[f].ctx.clone();
        self.post(
            Command::Log { ctx, level: LogLevel::Error, topic: "fiber".to_owned(), code, message },
        );
        let ghost logged = *self;
        self.fibers[f].mark_failed(error);
        proof {
            lemma_quiet_update(logged, *self, f as int);
        }
        self.announce(f);
    }

    /// Ask for a full unload and load round trip.
    pub fn restart(&mut self, f: usize) -> (res: Result<(), Error>)
        requires
            old(self).wf(),
            old(self).has_fiber(f),
        ensures
            final(self).wf(),
            old(self)@.fibers[f as int].uid is Some ==> res is Ok && final(self)@ == old(
                self,
            )@.restarted(f as int),
            old(self)@.fibers[f as int].uid is None ==> final(self)@ == old(self)@ && (
            res matches Err(Error::Coded(e)) && e.code == CordisCode::InactiveEffect && e.message@
                == CordisCode::InactiveEffect.text()),
    {
        let ghost before = *self;
        match self.fibers[f].assert_active() {
            Ok(()) => {},
            Err(error) => {
                return Err(error);
            },
        }
        let start: bool = self.fibers[f].mark_restarting();
        proof {
            lemma_quiet_update(before, *self, f as int);
        }
        if start {
            self.post(Command::Drive(f));
        }
        self.bump_settle(f);
        self.refresh(f);
        Ok(())
    }

    /// Take over a new raw config and restart with it. This is the innermost
    /// step of an update: hooks around it may hand it another config, or keep
    /// it from being reached.
    pub fn apply_update(&mut self, f: usize, config: Json) -> (res: Result<(), Error>)
        requires
            old(self).wf(),
            old(self).has_fiber(f),
        ensures
            final(self).wf(),
            old(self)@.fibers[f as int].uid is Some ==> res is Ok && final(self)@ == old(
                self,
            )@.updated(f as int, config),
            old(self)@.fibers[f as int].uid is None ==> final(self)@ == old(self)@ && (
            res matches Err(Error::Coded(e)) && e.code == CordisCode::InactiveEffect && e.message@
                == CordisCode::InactiveEffect.text()),
    {
        let ghost before = *self;
        match self.fibers[f].assert_active() {
            Ok(()) => {},
            Err(error) => {
                return Err(error);
            },
        }
        self.fibers[f].raw_config = config;
        proof {
            assert(self.fibers@[f as int]@ =~= (FiberView {
                raw_config: config,
                ..before.fibers@[f as int]@
            }));
            lemma_quiet_update(before, *self, f as int);
        }
        self.restart(f)
    }
}

} // verus!
