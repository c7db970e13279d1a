//! Service resolution: who sees which implementation, and who has to be told
//! when one appears or goes.
//!
//! Telling dependents runs in two phases, because availability predicates
//! belong to plugins and may read services themselves: [`RootState::notice`]
//! collects what to ask, [`RootState::finish_notice`] applies the answers.

use vstd::prelude::*;

use crate::context::Context;
use crate::drive::lemma_quiet_update;
use crate::error::{CordisCode, Error};
use crate::events::ScopeFilter;
use crate::fiber::{epoch_of, providers, satisfied, Fiber, FiberView, ProviderSnapshot};
use crate::plugin::declares_service;
use crate::reactivity::lemma_answered_frame;
use crate::root::{InternalEvent, InternalEventView, RootState, RootView};
use crate::service::ServiceImpl;
use crate::text::join3;

verus! {

/// What a read of a service comes to.
#[derive(Debug, Clone, Copy, PartialEq, Eq, Structural)]
pub enum Reading {
    /// No active provider is visible.
    Missing,
    /// The value with this number.
    Value(u64),
    /// Whatever the producer with this number computes for the reader.
    Compute(u64),
}

/// An implementation that a dependent would take, and the availability
/// predicate that has a say in it, by number.
#[derive(Debug, Clone, Copy, PartialEq, Eq, Structural)]
pub struct Candidate {
    pub snapshot: ProviderSnapshot,
    pub check: Option<u64>,
}

/// The question whether `fiber` gets its required service `name`.
pub struct Probe {
    pub fiber: usize,
    pub name: String,
    pub candidate: Option<Candidate>,
}

/// A [`Probe`] as it is spoken of.
pub struct ProbeView {
    pub fiber: int,
    pub name: Seq<char>,
    pub candidate: Option<Candidate>,
}

impl View for Probe {
    type V = ProbeView;

    open spec fn view(&self) -> ProbeView {
        ProbeView { fiber: self.fiber as int, name: self.name@, candidate: self.candidate }
    }
}

pub open spec fn probes_view(probes: Seq<Probe>) -> Seq<ProbeView> {
    probes.map_values(|p: Probe| p@)
}

/// A change of the service `name` under `label`, made known from `ctx`, and who
/// has to hear of it.
pub struct Notice {
    pub ctx: Context,
    pub name: String,
    pub label: u64,
    /// The fibers that require the service there, oldest first.
    pub fibers: Vec<usize>,
    pub probes: Vec<Probe>,
}

/// A [`Notice`] as it is spoken of.
#[verifier::ext_equal]
pub struct NoticeView {
    pub ctx: Context,
    pub name: Seq<char>,
    pub label: u64,
    pub fibers: Seq<usize>,
    pub probes: Seq<ProbeView>,
}

impl View for Notice {
    type V = NoticeView;

    open spec fn view(&self) -> NoticeView {
        NoticeView {
            ctx: self.ctx,
            name: self.name@,
            label: self.label,
            fibers: self.fibers@,
            probes: probes_view(self.probes@),
        }
    }
}

/// What the answer to a probe leaves the dependent with. A predicate is asked
/// only where there is one.
pub open spec fn resolved(candidate: Option<Candidate>, verdict: bool) -> Option<
    ProviderSnapshot,
> {
    match candidate {
        Some(c) => if c.check is None || verdict {
            Some(c.snapshot)
        } else {
            None
        },
        None => None,
    }
}

impl RootView {
    /// The implementation of `name` under `label`, active provider or not.
    pub open spec fn visible_at(self, name: Seq<char>, label: u64) -> Option<ServiceImpl> {
        if self.services.contains_key((name, label)) {
            Some(self.services[(name, label)])
        } else {
            None
        }
    }

    /// The implementation of `name` under `label`, from an active provider.
    pub open spec fn available_at(self, name: Seq<char>, label: u64) -> Option<ServiceImpl> {
        match self.visible_at(name, label) {
            Some(service) => if self.provider_live(service.provider_uid) {
                Some(service)
            } else {
                None
            },
            None => None,
        }
    }

    /// The implementation of `name` that `ctx` sees, active provider or not.
    pub open spec fn visible(self, ctx: Context, name: Seq<char>) -> Option<ServiceImpl> {
        self.visible_at(name, ctx.label_of(name))
    }

    /// The implementation of `name` that `ctx` sees, from an active provider.
    pub open spec fn available(self, ctx: Context, name: Seq<char>) -> Option<ServiceImpl> {
        self.available_at(name, ctx.label_of(name))
    }

    /// What a dependent in `ctx` would take for `name`.
    pub open spec fn candidate(self, ctx: Context, name: Seq<char>) -> Option<Candidate> {
        match self.available(ctx, name) {
            Some(service) => Some(
                Candidate {
                    snapshot: ProviderSnapshot {
                        provider_uid: service.provider_uid,
                        value: service.value,
                        dynamic: service.compute is Some,
                    },
                    check: service.check,
                },
            ),
            None => None,
        }
    }

    /// The snapshot of `name` that the fiber of `ctx` holds.
    pub open spec fn injected(self, ctx: Context, name: Seq<char>) -> Option<ProviderSnapshot> {
        match ctx.fiber {
            Some(f) => if self.fibers[f as int].store.contains_key(name) {
                Some(self.fibers[f as int].store[name])
            } else {
                None
            },
            None => None,
        }
    }

    /// What a read of `name` from `ctx` comes to: the injected snapshot of a
    /// stored value, else what the scope has from an active provider.
    pub open spec fn reading(self, ctx: Context, name: Seq<char>) -> Reading {
        match self.injected(ctx, name) {
            Some(snapshot) if !snapshot.dynamic => Reading::Value(snapshot.value),
            _ => match self.available(ctx, name) {
                Some(service) => match service.compute {
                    Some(producer) => Reading::Compute(producer),
                    None => Reading::Value(service.value),
                },
                None => Reading::Missing,
            },
        }
    }

    /// The running fiber `f` requires `name` and resolves it under `label`.
    pub open spec fn interested(self, f: int, name: Seq<char>, label: u64) -> bool {
        &&& self.fibers[f].uid is Some
        &&& self.fibers[f].inject.contains(name)
        &&& self.fibers[f].ctx.label_of(name) == label
    }

    /// The interested fibers among the first `n`, oldest first.
    pub open spec fn audience(self, n: int, name: Seq<char>, label: u64) -> Seq<usize>
        decreases n,
    {
        if n <= 0 {
            Seq::empty()
        } else if self.interested(n - 1, name, label) {
            self.audience(n - 1, name, label).push((n - 1) as usize)
        } else {
            self.audience(n - 1, name, label)
        }
    }

    /// The dependency `name` of `f` has to be looked at when `changed` has
    /// changed: it is the one that changed, or `f` has no snapshot of it.
    pub open spec fn stale(self, f: int, name: Seq<char>, changed: Option<Seq<char>>) -> bool {
        changed == Some(name) || !self.fibers[f].store.contains_key(name)
    }

    /// The questions to ask about the first `n` dependencies of `f`.
    pub open spec fn questions(self, f: int, n: int, changed: Option<Seq<char>>) -> Seq<ProbeView>
        decreases n,
    {
        if n <= 0 {
            Seq::empty()
        } else {
            let earlier = self.questions(f, n - 1, changed);
            let name = self.fibers[f].inject[n - 1];
            if self.stale(f, name, changed) {
                earlier.push(
                    ProbeView {
                        fiber: f,
                        name,
                        candidate: self.candidate(self.fibers[f].ctx, name),
                    },
                )
            } else {
                earlier
            }
        }
    }

    /// The questions to ask about every stale dependency of `f`.
    pub open spec fn all_questions(self, f: int, changed: Option<Seq<char>>) -> Seq<ProbeView> {
        self.questions(f, self.fibers[f].inject.len() as int, changed)
    }

    /// The questions to ask about these fibers, in order.
    pub open spec fn inquiry(self, fibers: Seq<usize>, changed: Seq<char>) -> Seq<ProbeView>
        decreases fibers.len(),
    {
        if fibers.len() == 0 {
            Seq::empty()
        } else {
            self.inquiry(fibers.drop_last(), changed) + self.all_questions(
                fibers.last() as int,
                Some(changed),
            )
        }
    }

    /// Who has to hear of a change of `name` as `ctx` resolves it.
    pub open spec fn notice(self, ctx: Context, name: Seq<char>) -> NoticeView {
        self.notice_at(ctx, name, ctx.label_of(name))
    }

    /// Who has to hear of a change of `name` under `label`, made known from
    /// `ctx`.
    pub open spec fn notice_at(self, ctx: Context, name: Seq<char>, label: u64) -> NoticeView {
        let fibers = self.audience(self.fibers.len() as int, name, label);
        NoticeView { ctx, name, label, fibers, probes: self.inquiry(fibers, name) }
    }

    /// The answers to the probes taken down, one after another.
    pub open spec fn answered(self, probes: Seq<ProbeView>, verdicts: Seq<bool>) -> RootView
        decreases probes.len(),
    {
        if probes.len() == 0 {
            self
        } else {
            let earlier = self.answered(probes.drop_last(), verdicts);
            let probe = probes.last();
            earlier.with_fiber(
                probe.fiber,
                earlier.fibers[probe.fiber].remembering(
                    probe.name,
                    resolved(probe.candidate, verdicts[probes.len() - 1]),
                ),
            )
        }
    }

    /// The epochs of these fibers recomputed, one after another.
    pub open spec fn refreshed_all(self, fibers: Seq<usize>) -> RootView
        decreases fibers.len(),
    {
        if fibers.len() == 0 {
            self
        } else {
            self.refreshed_all(fibers.drop_last()).refreshed(fibers.last() as int)
        }
    }

    /// The snapshot of `name` that `f` would take now from the provider that
    /// it has; the one that it has where that provider offers none.
    pub open spec fn renewal(self, f: int, name: Seq<char>) -> ProviderSnapshot {
        let fiber = self.fibers[f];
        match self.candidate(fiber.ctx, name) {
            Some(c) if c.snapshot.provider_uid == fiber.store[name].provider_uid => c.snapshot,
            _ => fiber.store[name],
        }
    }

    /// The snapshots of `f`, those of its first `n` dependencies renewed.
    pub open spec fn renewed(self, f: int, n: int) -> Map<Seq<char>, ProviderSnapshot> {
        let fiber = self.fibers[f];
        Map::new(
            |name: Seq<char>| fiber.store.contains_key(name),
            |name: Seq<char>|
                if fiber.inject.take(n).contains(name) {
                    self.renewal(f, name)
                } else {
                    fiber.store[name]
                },
        )
    }

    /// `f` about to run its plugin: every snapshot says what its provider
    /// offers now.
    pub open spec fn renewing(self, f: int) -> RootView {
        self.with_fiber(
            f,
            FiberView {
                store: self.renewed(f, self.fibers[f].inject.len() as int),
                ..self.fibers[f]
            },
        )
    }

    /// A change of a service made known: snapshots, epochs, observers in the
    /// scope of the change.
    pub open spec fn notified(self, notice: NoticeView, verdicts: Seq<bool>) -> RootView {
        self.answered(notice.probes, verdicts).refreshed_all(notice.fibers).emitted(
            notice.ctx,
            InternalEventView::Service { service: notice.name },
            Some((notice.name, notice.label)),
        )
    }
}

/// Every fiber that the notice names exists, and it asks on behalf of no fiber
/// that it does not tell.
pub open spec fn notice_fits(notice: NoticeView, fibers: nat) -> bool {
    &&& forall|i: int| 0 <= i < notice.fibers.len() ==> (#[trigger] notice.fibers[i]) < fibers
    &&& probes_fit(notice.probes, fibers)
    &&& forall|i: int|
        0 <= i < notice.probes.len() ==> listed(notice.fibers, (#[trigger] notice.probes[i]).fiber)
}

/// `g` is one of `fibers`.
pub open spec fn listed(fibers: Seq<usize>, g: int) -> bool {
    exists|k: int| 0 <= k < fibers.len() && #[trigger] fibers[k] == g
}

/// Every fiber that the probes name exists.
pub open spec fn probes_fit(probes: Seq<ProbeView>, fibers: nat) -> bool {
    forall|i: int| 0 <= i < probes.len() ==> 0 <= (#[trigger] probes[i]).fiber < fibers
}

impl RootState {
    /// The implementation of `name` that `ctx` sees; with `strict`, only one
    /// from an active provider.
    pub fn get_impl(&self, ctx: &Context, name: &str, strict: bool) -> (res: Option<ServiceImpl>)
        requires
            self.core_wf(),
        ensures
            strict ==> res == self@.available(*ctx, name@),
            !strict ==> res == self@.visible(*ctx, name@),
    {
        match self.reflect.get(name, ctx.effective_label(name)) {
            Some(service) => {
                if strict && !self.fiber_is_active(service.provider_uid) {
                    return None;
                }
                Some(service)
            },
            None => None,
        }
    }

    /// What a dependent in `ctx` would take for `name`, ahead of the
    /// availability predicate.
    pub fn resolve_impl(&self, ctx: &Context, name: &str) -> (res: Option<Candidate>)
        requires
            self.core_wf(),
        ensures
            res == self@.candidate(*ctx, name@),
    {
        match self.get_impl(ctx, name, true) {
            Some(service) => Some(
                Candidate {
                    snapshot: ProviderSnapshot {
                        provider_uid: service.provider_uid,
                        value: service.value,
                        dynamic: service.compute.is_some(),
                    },
                    check: service.check,
                },
            ),
            None => None,
        }
    }

    /// The questions to ask about the stale dependencies of `f`: all that
    /// have no snapshot, and `changed`.
    pub fn probes(&self, f: usize, changed: Option<&str>) -> (res: Vec<Probe>)
        requires
            self.core_wf(),
            self.has_fiber(f),
        ensures
            probes_view(res@) == self@.all_questions(
                f as int,
                match changed {
                    Some(c) => Some(c@),
                    None => None,
                },
            ),
    {
        let ghost view = match changed {
            Some(c) => Some(c@),
            None => None,
        };
        let key: Option<String> = match changed {
            Some(c) => Some(c.to_owned()),
            None => None,
        };
        let mut probes: Vec<Probe> = Vec::new();
        let mut i: usize = 0;
        assert(probes_view(probes@) =~= self@.questions(f as int, 0, view));
        while i < self.fibers[f].inject.len()
            invariant
                self.core_wf(),
                self.has_fiber(f),
                i <= self.fibers@[f as int].inject@.len(),
                match key {
                    Some(k) => view == Some(k@),
                    None => view is None,
                },
                probes_view(probes@) == self@.questions(f as int, i as int, view),
            decreases self.fibers@[f as int].inject@.len() - i,
        {
            let ghost before = probes_view(probes@);
            let service: &String = &self.fibers[f].inject[i].service;
            assert(self@.fibers[f as int].inject[i as int] == service@);
            let asked: bool = match &key {
                Some(k) => *k == *service,
                None => false,
            };
            if asked || !self.fibers[f].store.contains(service.as_str()) {
                let candidate: Option<Candidate> = self.resolve_impl(
                    &self.fibers[f].ctx,
                    service.as_str(),
                );
                let probe: Probe = Probe { fiber: f, name: service.clone(), candidate };
                let ghost probed = probe@;
                probes.push(probe);
                assert(probes_view(probes@) =~= before.push(probed));
            }
            i = i + 1;
        }
        probes
    }

    /// Collect who has to hear of a change of `name` as `ctx` resolves it,
    /// and what to ask on their behalf.
    pub fn notice(&self, ctx: &Context, name: &str) -> (res: Notice)
        requires
            self.core_wf(),
        ensures
            res@ == self@.notice(*ctx, name@),
            notice_fits(res@, self@.fibers.len()),
    {
        self.notice_at(ctx, name, ctx.effective_label(name))
    }

    /// Collect who has to hear of a change of `name` under `label`, made known
    /// from `ctx`, and what to ask on their behalf.
    pub fn notice_at(&self, ctx: &Context, name: &str, label: u64) -> (res: Notice)
        requires
            self.core_wf(),
        ensures
            res@ == self@.notice_at(*ctx, name@, label),
            notice_fits(res@, self@.fibers.len()),
    {
        let mut fibers: Vec<usize> = Vec::new();
        let mut probes: Vec<Probe> = Vec::new();
        let mut f: usize = 0;
        assert(fibers@ =~= self@.audience(0, name@, label));
        assert(probes_view(probes@) =~= self@.inquiry(fibers@, name@));
        while f < self.fibers.len()
            invariant
                self.core_wf(),
                f <= self.fibers@.len(),
                fibers@ == self@.audience(f as int, name@, label),
                probes_view(probes@) == self@.inquiry(fibers@, name@),
                forall|i: int| 0 <= i < fibers@.len() ==> (#[trigger] fibers@[i]) < f,
                probes_fit(probes_view(probes@), self@.fibers.len()),
                forall|i: int|
                    0 <= i < probes_view(probes@).len() ==> listed(
                        fibers@,
                        (#[trigger] probes_view(probes@)[i]).fiber,
                    ),
            decreases self.fibers@.len() - f,
        {
            let fiber: &Fiber = &self.fibers[f];
            assert(self@.fibers[f as int] == fiber@);
            if fiber.uid.is_some() && declares_service(&fiber.inject, name)
                && fiber.ctx.effective_label(name) == label {
                let ghost told = fibers@;
                let ghost asked = probes_view(probes@);
                let mut more: Vec<Probe> = self.probes(f, Some(name));
                let ghost questions = probes_view(more@);
                probes.append(&mut more);
                fibers.push(f);
                proof {
                    assert(fibers@.drop_last() =~= told);
                    assert(probes_view(probes@) =~= asked + questions);
                    lemma_questions_fit(
                        self@,
                        f as int,
                        self@.fibers[f as int].inject.len() as int,
                        Some(name@),
                    );
                    assert forall|i: int| 0 <= i < probes_view(probes@).len() implies listed(
                        fibers@,
                        (#[trigger] probes_view(probes@)[i]).fiber,
                    ) by {
                        if i < asked.len() {
                            assert(probes_view(probes@)[i] == asked[i]);
                            let k = choose|k: int|
                                0 <= k < told.len() && #[trigger] told[k] == asked[i].fiber;
                            assert(fibers@[k] == asked[i].fiber);
                        } else {
                            assert(probes_view(probes@)[i] == questions[i - asked.len()]);
                            assert(fibers@[told.len() as int] == f);
                        }
                    }
                }
            }
            f = f + 1;
        }
        let res: Notice = Notice {
            ctx: ctx.clone(),
            name: name.to_owned(),
            label,
            fibers,
            probes,
        };
        assert(res@ =~= self@.notice_at(*ctx, name@, label));
        res
    }

    /// Take down the answers to `probes`. The fibers concerned have to be
    /// refreshed after that.
    pub fn answer(&mut self, probes: Vec<Probe>, verdicts: &Vec<bool>)
        requires
            old(self).tidy(),
            probes_fit(probes_view(probes@), old(self)@.fibers.len()),
            verdicts@.len() == probes@.len(),
        ensures
            final(self).tidy(),
            final(self)@ == old(self)@.answered(probes_view(probes@), verdicts@),
            final(self)@.fibers.len() == old(self)@.fibers.len(),
    {
        let ghost all = probes_view(probes@);
        let ghost start = self@;
        let mut i: usize = 0;
        assert(all.take(0) =~= Seq::empty());
        while i < probes.len()
            invariant
                i <= probes@.len(),
                verdicts@.len() == probes@.len(),
                all == probes_view(probes@),
                self.tidy(),
                self@.fibers.len() == start.fibers.len(),
                probes_fit(all, start.fibers.len()),
                self@ == start.answered(all.take(i as int), verdicts@),
            decreases probes@.len() - i,
        {
            let ghost before = *self;
            let probe: &Probe = &probes[i];
            assert(all[i as int] == probe@);
            let snapshot: Option<ProviderSnapshot> = match probe.candidate {
                Some(candidate) => {
                    if candidate.check.is_none() || verdicts[i] {
                        Some(candidate.snapshot)
                    } else {
                        None
                    }
                },
                None => None,
            };
            self.fibers[probe.fiber].remember(probe.name.as_str(), snapshot);
            proof {
                lemma_quiet_update(before, *self, probe.fiber as int);
                assert(all.take(i + 1).drop_last() =~= all.take(i as int));
            }
            i = i + 1;
        }
        assert(all.take(all.len() as int) =~= all);
    }

    /// Renew the snapshots of `f`: what was set since they were taken is what
    /// the plugin is going to read. Providers do not change by it.
    pub fn renew(&mut self, f: usize)
        requires
            old(self).wf(),
            old(self).has_fiber(f),
        ensures
            final(self).wf(),
            final(self)@ == old(self)@.renewing(f as int),
    {
        let ghost start = self@;
        let ghost at = f as int;
        let ctx: Context = self.fibers[f].ctx.clone();
        let mut i: usize = 0;
        proof {
            assert(start.renewed(at, 0) =~= start.fibers[at].store);
            assert(self@ =~= start.with_fiber(
                at,
                FiberView { store: start.renewed(at, 0), ..start.fibers[at] },
            ));
        }
        while i < self.fibers[f].inject.len()
            invariant
                self.wf(),
                self.has_fiber(f),
                at == f,
                at < start.fibers.len(),
                ctx == start.fibers[at].ctx,
                i <= self.fibers@[at].inject@.len(),
                self@ == start.with_fiber(
                    at,
                    FiberView { store: start.renewed(at, i as int), ..start.fibers[at] },
                ),
            decreases self.fibers@[at].inject@.len() - i,
        {
            let ghost before = *self;
            assert(before@.fibers[at] == before.fibers@[at]@);
            let name: String = self.fibers[f].inject[i].service.clone();
            let ghost inject = start.fibers[at].inject;
            assert(inject == before@.fibers[at].inject);
            assert(inject[i as int] == name@);
            let held: Option<u64> = match self.fibers[f].store.get(name.as_str()) {
                Some(snapshot) => Some(snapshot.provider_uid),
                None => None,
            };
            let candidate: Option<Candidate> = self.resolve_impl(&ctx, name.as_str());
            proof {
                assert forall|uid: u64| #[trigger] before@.provider_live(uid)
                    == start.provider_live(uid) by {}
                assert(candidate == start.candidate(ctx, name@));
                lemma_one_more(inject, i as int);
            }
            if let (Some(uid), Some(c)) = (held, candidate) {
                if c.snapshot.provider_uid == uid {
                    self.fibers[f].remember(name.as_str(), Some(c.snapshot));
                    proof {
                        assert(before@.fibers[at].store.dom()
                            =~= self.fibers@[at]@.store.dom());
                        lemma_same_providers(
                            before@.fibers[at].inject,
                            before@.fibers[at].store,
                            self.fibers@[at]@.store,
                        );
                        assert(before@.fibers[at].sound());
                        lemma_quiet_update(before, *self, at);
                    }
                }
            }
            assert(self@.fibers[at].store =~= start.renewed(at, i + 1));
            assert(self@ =~= start.with_fiber(
                at,
                FiberView { store: start.renewed(at, i + 1), ..start.fibers[at] },
            ));
            i = i + 1;
        }
    }

    /// Apply the answers: the snapshots of every interested fiber, then their
    /// epochs, then the observers.
    pub fn finish_notice(&mut self, notice: Notice, verdicts: &Vec<bool>)
        requires
            old(self).wf(),
            notice_fits(notice@, old(self)@.fibers.len()),
            verdicts@.len() == notice.probes@.len(),
        ensures
            final(self).wf(),
            final(self)@ == old(self)@.notified(notice@, verdicts@),
            final(self)@.fibers.len() == old(self)@.fibers.len(),
    {
        let ghost view = notice@;
        let ghost before = self@;
        let Notice { ctx, name, label, fibers, probes } = notice;
        self.answer(probes, verdicts);
        let ghost start = self@;
        proof {
            assert forall|g: int| 0 <= g < start.fibers.len() implies (
            #[trigger] start.fibers[g]).mirrored() && start.fibers[g].attended() && (
            start.fibers[g].equipped() || listed(
                fibers@,
                g,
            )) by {
                assert(before.fibers[g].sound());
                lemma_answered_frame(before, view.probes, verdicts@, g);
                if !listed(fibers@, g) {
                    assert forall|i: int| 0 <= i < view.probes.len() implies (
                    #[trigger] view.probes[i]).fiber != g by {
                        assert(listed(view.fibers, view.probes[i].fiber));
                    }
                }
            }
            assert forall|g: int| 0 <= g < start.fibers.len() implies (
            #[trigger] start.fibers[g]).equipped() || pending(fibers@, 0, g) by {
                if !start.fibers[g].equipped() {
                    let k = choose|k: int| 0 <= k < fibers@.len() && #[trigger] fibers@[k] == g;
                    assert(pending_at(fibers@, 0, k, g));
                }
            }
        }
        assert forall|j: int| 0 <= j < fibers@.len() implies (#[trigger] fibers@[j])
            < start.fibers.len() by {
            assert(view.fibers[j] == fibers@[j]);
        }
        let mut i: usize = 0;
        assert(fibers@.take(0) =~= Seq::empty());
        while i < fibers.len()
            invariant
                i <= fibers@.len(),
                self.tidy(),
                forall|g: int|
                    0 <= g < self@.fibers.len() ==> (#[trigger] self@.fibers[g]).mirrored()
                        && self@.fibers[g].attended() && (self@.fibers[g].equipped() || pending(
                        fibers@,
                        i as int,
                        g,
                    )),
                self@.fibers.len() == start.fibers.len(),
                forall|j: int|
                    0 <= j < fibers@.len() ==> (#[trigger] fibers@[j]) < start.fibers.len(),
                self@ == start.refreshed_all(fibers@.take(i as int)),
            decreases fibers@.len() - i,
        {
            let ghost earlier = self@;
            self.refresh(fibers[i]);
            proof {
                let f = fibers@[i as int] as int;
                assert forall|g: int| 0 <= g < self@.fibers.len() implies (
                #[trigger] self@.fibers[g]).mirrored() && self@.fibers[g].attended() && (
                self@.fibers[g].equipped() || pending(
                    fibers@,
                    i + 1,
                    g,
                )) by {
                    assert(earlier.fibers[g].mirrored() && earlier.fibers[g].attended());
                    if g != f && !earlier.fibers[g].equipped() {
                        let k = choose|k: int| pending_at(fibers@, i as int, k, g);
                        assert(pending_at(fibers@, i + 1, k, g));
                    }
                }
            }
            assert(fibers@.take(i + 1).drop_last() =~= fibers@.take(i as int));
            i = i + 1;
        }
        assert(fibers@.take(fibers@.len() as int) =~= fibers@);
        assert forall|g: int| 0 <= g < self@.fibers.len() implies (
        #[trigger] self@.fibers[g]).sound() by {
            assert(!pending(fibers@, fibers@.len() as int, g));
        }
        let event: InternalEvent = InternalEvent::Service { service: name.clone() };
        self.emit(ctx, event, Some(ScopeFilter { name, label }));
    }
}

proof fn lemma_one_more(names: Seq<Seq<char>>, n: int)
    requires
        0 <= n < names.len(),
    ensures
        forall|name: Seq<char>| #[trigger]
            names.take(n + 1).contains(name) <==> names.take(n).contains(name) || name == names[n],
{
    let fewer = names.take(n);
    let more = names.take(n + 1);
    assert(more =~= fewer.push(names[n]));
    assert forall|name: Seq<char>| #[trigger] more.contains(name) <==> fewer.contains(name) || name
        == names[n] by {
        if fewer.contains(name) {
            let k = choose|k: int| 0 <= k < fewer.len() && fewer[k] == name;
            assert(more[k] == name);
        }
        if name == names[n] {
            assert(more[n] == name);
        }
        if more.contains(name) && name != names[n] {
            let k = choose|k: int| 0 <= k < more.len() && more[k] == name;
            assert(fewer[k] == name);
        }
    }
}

/// Snapshots of the same services from the same providers call for the same
/// epoch.
pub proof fn lemma_same_providers(
    inject: Seq<Seq<char>>,
    a: Map<Seq<char>, ProviderSnapshot>,
    b: Map<Seq<char>, ProviderSnapshot>,
)
    requires
        a.dom() == b.dom(),
        forall|name: Seq<char>|
            a.contains_key(name) ==> (#[trigger] a[name]).provider_uid == b[name].provider_uid,
    ensures
        epoch_of(inject, a) == epoch_of(inject, b),
{
    assert forall|name: Seq<char>| a.contains_key(name) == b.contains_key(name) by {
        assert(a.dom().contains(name) == b.dom().contains(name));
    }
    if satisfied(inject, a) {
        assert forall|i: int| 0 <= i < inject.len() implies b.contains_key(
            #[trigger] inject[i],
        ) by {
            assert(a.contains_key(inject[i]));
        }
        assert(providers(inject, a) =~= providers(inject, b));
    } else {
        let i = choose|i: int| 0 <= i < inject.len() && !a.contains_key(#[trigger] inject[i]);
        assert(!b.contains_key(inject[i]));
    }
}

/// `g` is among the fibers from position `from` on.
spec fn pending(fibers: Seq<usize>, from: int, g: int) -> bool {
    exists|k: int| pending_at(fibers, from, k, g)
}

spec fn pending_at(fibers: Seq<usize>, from: int, k: int, g: int) -> bool {
    from <= k < fibers.len() && fibers[k] == g
}

/// Questions about a fiber name that fiber.
pub proof fn lemma_questions_fit(root: RootView, f: int, n: int, changed: Option<Seq<char>>)
    requires
        0 <= f < root.fibers.len(),
    ensures
        probes_fit(root.questions(f, n, changed), root.fibers.len()),
        forall|i: int|
            0 <= i < root.questions(f, n, changed).len() ==> (#[trigger] root.questions(
                f,
                n,
                changed,
            )[i]).fiber == f,
    decreases n,
{
    if n > 0 {
        lemma_questions_fit(root, f, n - 1, changed);
    }
}

impl Context {
    /// Read a service: the injected snapshot of this fiber first, then the
    /// scoped store, whose provider must be active. Computed services are
    /// left to the reader to evaluate, anew on every read.
    pub fn get(&self, root: &RootState, name: &str) -> (res: Reading)
        requires
            root.wf(),
            root.has_context(*self),
        ensures
            res == root@.reading(*self, name@),
    {
        if let Some(f) = self.fiber {
            assert(root@.fibers[f as int] == root.fibers@[f as int]@);
            if let Some(snapshot) = root.fibers[f].store.get(name) {
                if !snapshot.dynamic {
                    return Reading::Value(snapshot.value);
                }
            }
        }
        match root.get_impl(self, name, true) {
            Some(service) => match service.compute {
                Some(producer) => Reading::Compute(producer),
                None => Reading::Value(service.value),
            },
            None => Reading::Missing,
        }
    }

    /// Read a service or fail with a descriptive error.
    pub fn require(&self, root: &RootState, name: &str) -> (res: Result<Reading, Error>)
        requires
            root.wf(),
            root.has_context(*self),
        ensures
            root@.reading(*self, name@) !is Missing ==> (res matches Ok(reading) && reading
                == root@.reading(*self, name@)),
            root@.reading(*self, name@) is Missing ==> (res matches Err(error) && error is Other
                && error.text() == missing_text(name@)),
    {
        match self.get(root, name) {
            Reading::Missing => Err(missing_service(name)),
            reading => Ok(reading),
        }
    }

    /// The logger service; where none is there, the default logger serves.
    pub fn logger(&self, root: &RootState) -> (res: Reading)
        requires
            root.wf(),
            root.has_context(*self),
        ensures
            res == root@.reading(*self, "logger"@),
    {
        self.get(root, "logger")
    }

    /// Overwrite the value of a service that this fiber provided.
    pub fn set(&self, root: &mut RootState, name: &str, value: u64) -> (res: Result<(), Error>)
        requires
            old(root).wf(),
            old(root).has_context(*self),
        ensures
            final(root).wf(),
            set_refusal(old(root)@, *self, name@) is None ==> res is Ok && final(root)@
                == (RootView {
                services: old(root)@.services.insert(
                    (name@, self.label_of(name@)),
                    ServiceImpl { value, ..old(root)@.visible(*self, name@).unwrap() },
                ),
                ..old(root)@
            }),
            set_refusal(old(root)@, *self, name@) matches Some(code) ==> final(root)@ == old(root)@
                && match code {
                Some(code) => res matches Err(Error::Coded(e)) && e.code == code && e.message@
                    == code.text(),
                None => res matches Err(error) && error is Other && error.text() == unprovided_text(
                    name@,
                ),
            },
    {
        let uid: u64 = match self.fiber {
            Some(f) => {
                assert(root@.fibers[f as int] == root.fibers@[f as int]@);
                match root.fibers[f].uid {
                    Some(uid) => uid,
                    None => {
                        return Err(Error::coded(CordisCode::InactiveEffect));
                    },
                }
            },
            None => {
                return Err(Error::coded(CordisCode::InactiveEffect));
            },
        };
        let label: u64 = self.effective_label(name);
        match root.reflect.get(name, label) {
            Some(service) => {
                if service.provider_uid != uid {
                    return Err(Error::coded(CordisCode::ForeignService));
                }
                let ghost before = *root;
                root.reflect.overwrite(name, label, value);
                proof {
                    assert(root@ =~= (RootView { services: root@.services, ..before@ }));
                }
                Ok(())
            },
            None => {
                let text: String = join3("cannot set property \"", name, "\" without provide");
                Err(Error::msg(text.as_str()))
            },
        }
    }
}

/// The text of the error for reading a service that is not there.
pub open spec fn missing_text(name: Seq<char>) -> Seq<char> {
    "cannot get property \""@ + name + "\" without inject"@
}

/// The error for reading a service that is not there.
pub fn missing_service(name: &str) -> (res: Error)
    ensures
        res is Other,
        res.text() == missing_text(name@),
        res.text() == "cannot get property \""@ + name@ + "\" without inject"@,
{
    let text: String = join3("cannot get property \"", name, "\" without inject");
    Error::msg(text.as_str())
}

/// The text of the error for setting a service that nobody provides.
pub open spec fn unprovided_text(name: Seq<char>) -> Seq<char> {
    "cannot set property \""@ + name + "\" without provide"@
}

/// Why `ctx` may not overwrite `name`: the code of the error, or `Some(None)`
/// where nobody provides the service.
pub open spec fn set_refusal(root: RootView, ctx: Context, name: Seq<char>) -> Option<
    Option<CordisCode>,
> {
    match ctx.fiber {
        Some(f) => match root.fibers[f as int].uid {
            Some(uid) => match root.visible(ctx, name) {
                Some(service) => if service.provider_uid == uid {
                    None
                } else {
                    Some(Some(CordisCode::ForeignService))
                },
                None => Some(None),
            },
            None => Some(Some(CordisCode::InactiveEffect)),
        },
        None => Some(Some(CordisCode::InactiveEffect)),
    }
}

} // verus!
