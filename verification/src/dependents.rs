//! Who depends on a service, who is told of it, and what the answer leaves a
//! dependent with: stated over the fibers, the services and the verdicts
//! themselves.

use vstd::prelude::*;

use crate::context::Context;
use crate::fiber::{
    epoch_of, epoch_text, inactive, law_epoch_active_iff_satisfied,
    law_epoch_identifies_providers, providers, satisfied, FiberState, FiberView, ProviderSnapshot,
};
use crate::reactivity::{
    asks, asks_at, law_audience_is_the_interested, law_change_reaches_its_dependents,
    lemma_answered_frame, lemma_answered_no, lemma_answered_value, lemma_answered_yes,
    lemma_inquiry, lemma_notice_fits, lemma_questions, lemma_refreshed, lemma_refreshed_all,
};
use crate::resolve::{lemma_questions_fit, probes_fit, resolved, Candidate, ProbeView, Reading};
use crate::root::{CommandView, RootView};

verus! {

// ---------------------------------------------------------------------------
// Whose services are there
// ---------------------------------------------------------------------------

/// A service is available from an active provider only. The root fiber always
/// counts as one; any other provider has to be running and in the state
/// `Active`: while it is loading, unloading, pending, failed or disposed, its
/// services are there for nobody. Where the provider is active, readers and
/// dependents get exactly what was registered.
pub proof fn law_only_active_providers_serve(root: RootView, ctx: Context, name: Seq<char>)
    ensures
        ({
            let label = ctx.label_of(name);
            let service = root.services[(name, label)];
            let provider = root.fibers[service.provider_uid as int];
            let active = service.provider_uid == 0 || (service.provider_uid < root.fibers.len()
                && provider.uid is Some && provider.state == FiberState::Active);
            let reader = root.fibers[ctx.fiber.unwrap() as int];
            let unheld = ctx.fiber is None || !reader.store.contains_key(name);
            &&& root.services.contains_key((name, label)) ==> root.visible_at(name, label) == Some(
                service,
            ) && root.visible(ctx, name) == Some(service)
            &&& !root.services.contains_key((name, label)) ==> root.visible_at(name, label) is None
                && root.visible(ctx, name) is None
            &&& root.services.contains_key((name, label)) && active ==> {
                &&& root.available_at(name, label) == Some(service)
                &&& root.available(ctx, name) == Some(service)
                &&& root.candidate(ctx, name) == Some(
                    Candidate {
                        snapshot: ProviderSnapshot {
                            provider_uid: service.provider_uid,
                            value: service.value,
                            dynamic: service.compute is Some,
                        },
                        check: service.check,
                    },
                )
                &&& unheld && service.compute is None ==> root.reading(ctx, name)
                    == Reading::Value(service.value)
                &&& unheld && service.compute is Some ==> root.reading(ctx, name)
                    == Reading::Compute(service.compute.unwrap())
            }
            &&& !root.services.contains_key((name, label)) || !active ==> {
                &&& root.available_at(name, label) is None
                &&& root.available(ctx, name) is None
                &&& root.candidate(ctx, name) is None
                &&& unheld ==> root.reading(ctx, name) == Reading::Missing
            }
        }),
{
}

/// A provider that is still loading provides for nobody, whichever fiber it
/// is; nor does one that is in any other state but `Active`.
pub proof fn law_loading_provider_is_resolved_by_nobody(
    root: RootView,
    ctx: Context,
    name: Seq<char>,
    p: int,
)
    requires
        0 < p < root.fibers.len(),
        root.services.contains_key((name, ctx.label_of(name))),
        root.services[(name, ctx.label_of(name))].provider_uid == p,
        root.fibers[p].state != FiberState::Active,
        ctx.fiber is None || !root.fibers[ctx.fiber.unwrap() as int].store.contains_key(name),
    ensures
        root.available_at(name, ctx.label_of(name)) is None,
        root.candidate(ctx, name) is None,
        root.reading(ctx, name) == Reading::Missing,
{
    law_only_active_providers_serve(root, ctx, name);
}

/// A snapshot of a stored value is read by the fiber that holds it, whatever
/// the services are by then; one of a computed service is not.
pub proof fn law_snapshots_are_read_first(root: RootView, ctx: Context, name: Seq<char>, f: usize)
    requires
        ctx.fiber == Some(f),
        f < root.fibers.len(),
        root.fibers[f as int].store.contains_key(name),
    ensures
        !root.fibers[f as int].store[name].dynamic ==> root.reading(ctx, name) == Reading::Value(
            root.fibers[f as int].store[name].value,
        ),
        root.fibers[f as int].store[name].dynamic ==> root.reading(ctx, name) == root.reading(
            Context { fiber: None, ..ctx },
            name,
        ),
{
}

// ---------------------------------------------------------------------------
// Who is told
// ---------------------------------------------------------------------------

/// A running fiber that requires a service, at whatever place among its
/// requirements, and resolves it to the label of the change, is told of the
/// change, and it is asked on its behalf what is to become of that service.
pub proof fn law_every_dependent_is_told(
    root: RootView,
    ctx: Context,
    name: Seq<char>,
    label: u64,
    g: int,
    j: int,
)
    requires
        root.fibers.len() <= usize::MAX,
        0 <= g < root.fibers.len(),
        root.fibers[g].uid is Some,
        0 <= j < root.fibers[g].inject.len(),
        root.fibers[g].inject[j] == name,
        root.fibers[g].ctx.label_of(name) == label,
    ensures
        root.notice_at(ctx, name, label).ctx == ctx,
        root.notice_at(ctx, name, label).name == name,
        root.notice_at(ctx, name, label).label == label,
        root.notice_at(ctx, name, label).fibers.contains(g as usize),
        exists|i: int|
            0 <= i < root.notice_at(ctx, name, label).probes.len() && (
            #[trigger] root.notice_at(ctx, name, label).probes[i]).fiber == g && root.notice_at(
                ctx,
                name,
                label,
            ).probes[i].name == name,
{
    let notice = root.notice_at(ctx, name, label);
    assert(root.interested(g, name, label));
    law_audience_is_the_interested(root, root.fibers.len() as int, name, label);
    lemma_inquiry(root, notice.fibers, name);
    let k = choose|k: int| 0 <= k < notice.fibers.len() && notice.fibers[k] == g as usize;
    assert(root.stale(g, name, Some(name)));
    assert(root.fibers[notice.fibers[k] as int].inject[j] == name);
    assert(asks(notice.probes, g, name));
    let i = choose|i: int| asks_at(notice.probes, i, g, name);
    assert(notice.probes[i].fiber == g);
}

/// Nobody else is told: every fiber that a notice lists is running, has the
/// service among its requirements and resolves it to that label. It is listed
/// once, oldest fibers first.
pub proof fn law_only_dependents_are_told(
    root: RootView,
    ctx: Context,
    name: Seq<char>,
    label: u64,
    k: int,
    l: int,
)
    requires
        root.fibers.len() <= usize::MAX,
        0 <= k < root.notice_at(ctx, name, label).fibers.len(),
    ensures
        ({
            let told = root.notice_at(ctx, name, label).fibers;
            let g = told[k] as int;
            &&& 0 <= g < root.fibers.len()
            &&& root.fibers[g].uid is Some
            &&& root.fibers[g].ctx.label_of(name) == label
            &&& exists|j: int|
                0 <= j < root.fibers[g].inject.len() && #[trigger] root.fibers[g].inject[j] == name
            &&& k < l < told.len() ==> told[k] < told[l]
        }),
{
    law_audience_is_the_interested(root, root.fibers.len() as int, name, label);
    let told = root.notice_at(ctx, name, label).fibers;
    assert(root.interested(told[k] as int, name, label));
}

/// What is asked on behalf of a dependent that is told: about the service that
/// changed and about every required service that it has no snapshot of, and
/// about nothing else. Each question carries what the dependent would take, by
/// its own scope and from an active provider.
pub proof fn law_what_is_asked(
    root: RootView,
    ctx: Context,
    name: Seq<char>,
    label: u64,
    g: int,
    j: int,
    i: int,
)
    requires
        root.fibers.len() <= usize::MAX,
        0 <= g < root.fibers.len(),
        root.notice_at(ctx, name, label).fibers.contains(g as usize),
    ensures
        ({
            let probes = root.notice_at(ctx, name, label).probes;
            let fiber = root.fibers[g];
            let p = probes[i];
            &&& 0 <= j < fiber.inject.len() && (fiber.inject[j] == name
                || !fiber.store.contains_key(fiber.inject[j])) ==> asks(probes, g, fiber.inject[j])
            &&& 0 <= i < probes.len() && p.fiber == g ==> {
                &&& exists|l: int|
                    0 <= l < fiber.inject.len() && #[trigger] fiber.inject[l] == p.name
                &&& p.name == name || !fiber.store.contains_key(p.name)
                &&& offered(root, fiber.ctx.label_of(p.name), p)
            }
        }),
{
    let notice = root.notice_at(ctx, name, label);
    lemma_inquiry(root, notice.fibers, name);
    let k = choose|k: int| 0 <= k < notice.fibers.len() && notice.fibers[k] == g as usize;
    assert(notice.fibers[k] as int == g);
    if 0 <= j < root.fibers[g].inject.len() {
        let required = root.fibers[g].inject[j];
        if required == name || !root.fibers[g].store.contains_key(required) {
            assert(root.stale(g, required, Some(name)));
            assert(root.fibers[notice.fibers[k] as int].inject[j] == required);
        }
    }
    if 0 <= i < notice.probes.len() && notice.probes[i].fiber == g {
        let p = notice.probes[i];
        assert(root.fibers[g].inject.contains(p.name));
        law_only_active_providers_serve(root, root.fibers[g].ctx, p.name);
    }
}

/// The probe carries what is registered under its name and `label`, provided
/// that the provider is the root fiber or active; else it carries nothing.
pub open spec fn offered(root: RootView, label: u64, probe: ProbeView) -> bool {
    let service = root.services[(probe.name, label)];
    let provider = root.fibers[service.provider_uid as int];
    if root.services.contains_key((probe.name, label)) && (service.provider_uid == 0 || (
    service.provider_uid < root.fibers.len() && provider.uid is Some && provider.state
        == FiberState::Active)) {
        probe.candidate matches Some(c) && c.snapshot.provider_uid == service.provider_uid
            && c.snapshot.value == service.value && c.snapshot.dynamic == (service.compute is Some)
            && c.check == service.check
    } else {
        probe.candidate is None
    }
}

// ---------------------------------------------------------------------------
// What the answers leave behind
// ---------------------------------------------------------------------------

/// An answer decides about one snapshot of one fiber. Where there is nothing to
/// take, or there is a predicate and it says no, the fiber has no snapshot of
/// that service afterwards, whoever the provider is; where there is something
/// to take, and no predicate or one that says yes, it has exactly that. What
/// nobody asked about is as it was.
pub proof fn law_answers_decide(
    root: RootView,
    probes: Seq<ProbeView>,
    verdicts: Seq<bool>,
    g: int,
    name: Seq<char>,
    snapshot: ProviderSnapshot,
)
    requires
        0 <= g < root.fibers.len(),
        forall|i: int|
            0 <= i < probes.len() ==> 0 <= (#[trigger] probes[i]).fiber < root.fibers.len(),
    ensures
        ({
            let after = root.answered(probes, verdicts);
            let asked = exists|i: int|
                0 <= i < probes.len() && (#[trigger] probes[i]).fiber == g && probes[i].name
                    == name;
            let refused = forall|i: int|
                0 <= i < probes.len() && (#[trigger] probes[i]).fiber == g && probes[i].name
                    == name ==> (probes[i].candidate matches Some(c) ==> c.check is Some
                    && !verdicts[i]);
            let granted = forall|i: int|
                0 <= i < probes.len() && (#[trigger] probes[i]).fiber == g && probes[i].name
                    == name ==> (probes[i].candidate matches Some(c) && c.snapshot == snapshot && (
                c.check is None || verdicts[i]));
            &&& asked && refused ==> !after.fibers[g].store.contains_key(name)
            &&& asked && granted ==> after.fibers[g].store.contains_key(name)
                && after.fibers[g].store[name] == snapshot
            &&& !asked ==> after.fibers[g].store.contains_key(name)
                == root.fibers[g].store.contains_key(name) && after.fibers[g].store[name]
                == root.fibers[g].store[name]
            &&& after.fibers[g] == (FiberView {
                store: after.fibers[g].store,
                ..root.fibers[g]
            })
            &&& after.fibers.len() == root.fibers.len()
            &&& after == (RootView { fibers: after.fibers, ..root })
        }),
{
    assert(probes_fit(probes, root.fibers.len()));
    lemma_answered_frame(root, probes, verdicts, g);
    if exists|i: int|
        0 <= i < probes.len() && (#[trigger] probes[i]).fiber == g && probes[i].name == name {
        let i = choose|i: int|
            0 <= i < probes.len() && (#[trigger] probes[i]).fiber == g && probes[i].name == name;
        assert(asks_at(probes, i, g, name));
        if forall|i: int|
            0 <= i < probes.len() && (#[trigger] probes[i]).fiber == g && probes[i].name == name
                ==> (probes[i].candidate matches Some(c) ==> c.check is Some && !verdicts[i]) {
            assert forall|i: int| #[trigger] asks_at(probes, i, g, name) implies resolved(
                probes[i].candidate,
                verdicts[i],
            ) is None by {
                assert(probes[i].fiber == g);
            }
            lemma_answered_no(root, probes, verdicts, g, name);
        }
        if forall|i: int|
            0 <= i < probes.len() && (#[trigger] probes[i]).fiber == g && probes[i].name == name
                ==> (probes[i].candidate matches Some(c) && c.snapshot == snapshot && (c.check
                is None || verdicts[i])) {
            assert forall|i: int| #[trigger] asks_at(probes, i, g, name) implies resolved(
                probes[i].candidate,
                verdicts[i],
            ) == Some(snapshot) by {
                assert(probes[i].fiber == g);
            }
            lemma_answered_value(root, probes, verdicts, g, name, snapshot);
        }
    } else {
        lemma_unasked(root, probes, verdicts, g, name);
    }
}

proof fn lemma_unasked(
    root: RootView,
    probes: Seq<ProbeView>,
    verdicts: Seq<bool>,
    g: int,
    name: Seq<char>,
)
    requires
        0 <= g < root.fibers.len(),
        probes_fit(probes, root.fibers.len()),
        forall|i: int|
            0 <= i < probes.len() ==> !((#[trigger] probes[i]).fiber == g && probes[i].name
                == name),
    ensures
        root.answered(probes, verdicts).fibers[g].store.contains_key(name)
            == root.fibers[g].store.contains_key(name),
        root.answered(probes, verdicts).fibers[g].store[name] == root.fibers[g].store[name],
    decreases probes.len(),
{
    if probes.len() > 0 {
        let rest = probes.drop_last();
        assert forall|i: int| 0 <= i < rest.len() implies 0 <= (#[trigger] rest[i]).fiber
            < root.fibers.len() && !(rest[i].fiber == g && rest[i].name == name) by {
            assert(rest[i] == probes[i]);
        }
        lemma_answered_frame(root, rest, verdicts, g);
        lemma_unasked(root, rest, verdicts, g, name);
        let last = probes[probes.len() - 1];
        assert(!(last.fiber == g && last.name == name));
    }
}

// ---------------------------------------------------------------------------
// What a change leads to
// ---------------------------------------------------------------------------

/// A dependent without one of its services does not run: at the place `j` of
/// its requirements stands a service that changed, or that it has no snapshot
/// of, and that service is not to be had. Nothing is registered in the scope
/// of the dependent; or the provider is neither the root fiber nor active; or
/// the registered service has a predicate and the predicate says no for this
/// dependent, whoever the provider is. Told of the change, the dependent has
/// no snapshot of that service and desires to be inactive.
pub proof fn law_missing_service_parks_its_dependent(
    root: RootView,
    ctx: Context,
    name: Seq<char>,
    label: u64,
    verdicts: Seq<bool>,
    g: int,
    at: int,
    j: int,
)
    requires
        root.fibers.len() <= usize::MAX,
        0 <= g < root.fibers.len(),
        root.fibers[g].uid is Some,
        0 <= at < root.fibers[g].inject.len(),
        root.fibers[g].inject[at] == name,
        root.fibers[g].ctx.label_of(name) == label,
        0 <= j < root.fibers[g].inject.len(),
        root.fibers[g].inject[j] == name || !root.fibers[g].store.contains_key(
            root.fibers[g].inject[j],
        ),
        ({
            let required = root.fibers[g].inject[j];
            let key = (required, root.fibers[g].ctx.label_of(required));
            let service = root.services[key];
            let provider = root.fibers[service.provider_uid as int];
            let probes = root.notice_at(ctx, name, label).probes;
            ||| !root.services.contains_key(key)
            ||| service.provider_uid != 0 && (service.provider_uid >= root.fibers.len()
                || provider.uid is None || provider.state != FiberState::Active)
            ||| service.check is Some && forall|i: int|
                0 <= i < probes.len() && (#[trigger] probes[i]).fiber == g && probes[i].name
                    == required ==> !verdicts[i]
        }),
    ensures
        !root.notified(root.notice_at(ctx, name, label), verdicts).fibers[g].store.contains_key(
            root.fibers[g].inject[j],
        ),
        root.notified(root.notice_at(ctx, name, label), verdicts).fibers[g].desired == inactive(),
        root.notified(root.notice_at(ctx, name, label), verdicts).fibers[g].desired.len() == 0,
{
    let notice = root.notice_at(ctx, name, label);
    let required = root.fibers[g].inject[j];
    let told = root.answered(notice.probes, verdicts);
    law_every_dependent_is_told(root, ctx, name, label, g, at);
    law_what_is_asked(root, ctx, name, label, g, j, 0);
    lemma_notice_fits(root, ctx, name, label);
    lemma_answered_frame(root, notice.probes, verdicts, g);
    assert(asks(notice.probes, g, required));
    assert forall|i: int| #[trigger] asks_at(notice.probes, i, g, required) implies resolved(
        notice.probes[i].candidate,
        verdicts[i],
    ) is None by {
        law_what_is_asked(root, ctx, name, label, g, j, i);
    }
    lemma_answered_no(root, notice.probes, verdicts, g, required);
    let k = choose|k: int| 0 <= k < notice.fibers.len() && notice.fibers[k] == g as usize;
    assert(notice.fibers[k] == g);
    lemma_refreshed_all(told, notice.fibers, g);
    assert(!told.fibers[g].store.contains_key(told.fibers[g].inject[j]));
    assert(told.fibers[g].epoch() == inactive());
}

/// A predicate that says no keeps its service from the dependent, the root
/// fiber's services and every other provider's alike.
pub proof fn law_refused_service_parks_its_dependent(
    root: RootView,
    ctx: Context,
    name: Seq<char>,
    label: u64,
    verdicts: Seq<bool>,
    g: int,
    at: int,
)
    requires
        root.fibers.len() <= usize::MAX,
        0 <= g < root.fibers.len(),
        root.fibers[g].uid is Some,
        0 <= at < root.fibers[g].inject.len(),
        root.fibers[g].inject[at] == name,
        root.fibers[g].ctx.label_of(name) == label,
        root.services.contains_key((name, label)),
        root.services[(name, label)].check is Some,
        forall|i: int|
            0 <= i < root.notice_at(ctx, name, label).probes.len() && (#[trigger] root.notice_at(
                ctx,
                name,
                label,
            ).probes[i]).fiber == g && root.notice_at(ctx, name, label).probes[i].name == name
                ==> !verdicts[i],
    ensures
        !root.notified(root.notice_at(ctx, name, label), verdicts).fibers[g].store.contains_key(
            name,
        ),
        root.notified(root.notice_at(ctx, name, label), verdicts).fibers[g].desired == inactive(),
{
    law_missing_service_parks_its_dependent(root, ctx, name, label, verdicts, g, at, at);
}

/// A dependent all of whose services are to be had runs. Every required service
/// is registered in its scope by the root fiber or an active provider, and
/// the predicates that are asked say yes. Told of a change, the dependent has a
/// snapshot of every service, desires to run, and its snapshot of what changed
/// says what is registered now.
pub proof fn law_served_dependent_is_sent_to_run(
    root: RootView,
    ctx: Context,
    name: Seq<char>,
    label: u64,
    verdicts: Seq<bool>,
    g: int,
    at: int,
)
    requires
        root.fibers.len() <= usize::MAX,
        0 <= g < root.fibers.len(),
        root.fibers[g].uid is Some,
        0 <= at < root.fibers[g].inject.len(),
        root.fibers[g].inject[at] == name,
        root.fibers[g].ctx.label_of(name) == label,
        forall|j: int|
            0 <= j < root.fibers[g].inject.len() ==> {
                let required = #[trigger] root.fibers[g].inject[j];
                let key = (required, root.fibers[g].ctx.label_of(required));
                let service = root.services[key];
                let provider = root.fibers[service.provider_uid as int];
                &&& root.services.contains_key(key)
                &&& service.provider_uid == 0 || (service.provider_uid < root.fibers.len()
                    && provider.uid is Some && provider.state == FiberState::Active)
            },
        forall|i: int|
            0 <= i < root.notice_at(ctx, name, label).probes.len() && (#[trigger] root.notice_at(
                ctx,
                name,
                label,
            ).probes[i]).candidate.unwrap().check is Some ==> verdicts[i],
    ensures
        ({
            let after = root.notified(root.notice_at(ctx, name, label), verdicts).fibers[g];
            let service = root.services[(name, label)];
            &&& after.desired != inactive()
            &&& after.desired.len() > 0
            &&& after.desired == epoch_of(after.inject, after.store)
            &&& forall|j: int|
                0 <= j < root.fibers[g].inject.len() ==> after.store.contains_key(
                    #[trigger] root.fibers[g].inject[j],
                )
            &&& after.store[name].provider_uid == service.provider_uid
            &&& after.store[name].value == service.value
            &&& after.store[name].dynamic == (service.compute is Some)
        }),
{
    let notice = root.notice_at(ctx, name, label);
    let told = root.answered(notice.probes, verdicts);
    let inject = root.fibers[g].inject;
    law_every_dependent_is_told(root, ctx, name, label, g, at);
    lemma_notice_fits(root, ctx, name, label);
    lemma_answered_frame(root, notice.probes, verdicts, g);
    assert forall|i: int, j: int|
        0 <= j < inject.len() && #[trigger] asks_at(
            notice.probes,
            i,
            g,
            #[trigger] inject[j],
        ) implies resolved(notice.probes[i].candidate, verdicts[i]) is Some by {
        law_what_is_asked(root, ctx, name, label, g, j, i);
    }
    assert forall|j: int| 0 <= j < inject.len() implies told.fibers[g].store.contains_key(
        #[trigger] inject[j],
    ) by {
        law_what_is_asked(root, ctx, name, label, g, j, 0);
        assert forall|i: int| #[trigger] asks_at(notice.probes, i, g, inject[j]) implies resolved(
            notice.probes[i].candidate,
            verdicts[i],
        ) is Some by {}
        lemma_answered_yes(root, notice.probes, verdicts, g, inject[j]);
    }
    let service = root.services[(name, label)];
    let fresh = ProviderSnapshot {
        provider_uid: service.provider_uid,
        value: service.value,
        dynamic: service.compute is Some,
    };
    law_what_is_asked(root, ctx, name, label, g, at, 0);
    assert forall|i: int| #[trigger] asks_at(notice.probes, i, g, name) implies resolved(
        notice.probes[i].candidate,
        verdicts[i],
    ) == Some(fresh) by {
        law_what_is_asked(root, ctx, name, label, g, at, i);
        assert(asks_at(notice.probes, i, g, inject[at]));
    }
    lemma_answered_value(root, notice.probes, verdicts, g, name, fresh);
    let k = choose|k: int| 0 <= k < notice.fibers.len() && notice.fibers[k] == g as usize;
    assert(notice.fibers[k] == g);
    lemma_refreshed_all(told, notice.fibers, g);
    law_epoch_active_iff_satisfied(inject, told.fibers[g].store);
    assert(satisfied(inject, told.fibers[g].store));
    assert(told.fibers[g].epoch() != inactive());
    if told.fibers[g].epoch().len() == 0 {
        assert(told.fibers[g].epoch() =~= inactive());
    }
}

/// A dependent that is told of a change is asked for what its snapshots then call
/// for. Where that is what it desires already and nothing is outstanding, only
/// its snapshots change. Else it desires that, has to be looked at, and has a
/// driver: where it had none, the order to start one is given; and where it has
/// to stop, what it has loaded will be unloaded even if the service returns at
/// once.
pub proof fn law_told_dependent_is_driven(
    root: RootView,
    ctx: Context,
    name: Seq<char>,
    label: u64,
    verdicts: Seq<bool>,
    g: int,
    at: int,
)
    requires
        root.fibers.len() <= usize::MAX,
        0 <= g < root.fibers.len(),
        root.fibers[g].uid is Some,
        0 <= at < root.fibers[g].inject.len(),
        root.fibers[g].inject[at] == name,
        root.fibers[g].ctx.label_of(name) == label,
    ensures
        ({
            let fiber = root.fibers[g];
            let told = root.notified(root.notice_at(ctx, name, label), verdicts);
            let after = told.fibers[g];
            let epoch = epoch_of(fiber.inject, after.store);
            let idle = fiber.desired == epoch && !fiber.dirty;
            &&& idle ==> after == (FiberView { store: after.store, ..fiber })
            &&& !idle ==> after == (FiberView {
                store: after.store,
                desired: epoch,
                dirty: true,
                running: true,
                force: fiber.force || epoch.len() == 0,
                state: if epoch.len() == 0 {
                    FiberState::Unloading
                } else {
                    FiberState::Loading
                },
                ..fiber
            })
            &&& !idle && !fiber.running ==> exists|k: int|
                root.outbox.len() <= k < told.outbox.len() && #[trigger] told.outbox[k]
                    == CommandView::Drive(g)
        }),
{
    let notice = root.notice_at(ctx, name, label);
    let told = root.answered(notice.probes, verdicts);
    law_every_dependent_is_told(root, ctx, name, label, g, at);
    lemma_notice_fits(root, ctx, name, label);
    lemma_answered_frame(root, notice.probes, verdicts, g);
    let k = choose|k: int| 0 <= k < notice.fibers.len() && notice.fibers[k] == g as usize;
    assert(notice.fibers[k] == g);
    lemma_refreshed_all(told, notice.fibers, g);
    let epoch = told.fibers[g].epoch();
    if epoch.len() == 0 {
        assert(epoch =~= inactive());
    }
    if told.fibers[g].accepts(epoch) && !told.fibers[g].running {
        lemma_ordered(told, notice.fibers, g);
        let after = root.notified(notice, verdicts);
        let refreshed = told.refreshed_all(notice.fibers);
        let k = choose|k: int|
            told.outbox.len() <= k < refreshed.outbox.len() && #[trigger] refreshed.outbox[k]
                == CommandView::Drive(g);
        assert(after.outbox[k] == CommandView::Drive(g));
    }
}

/// Refreshing fibers gives the order to drive one of them that has to change and
/// has no driver.
proof fn lemma_ordered(root: RootView, fibers: Seq<usize>, g: int)
    requires
        0 <= g < root.fibers.len(),
        forall|i: int| 0 <= i < fibers.len() ==> (#[trigger] fibers[i]) < root.fibers.len(),
        root.fibers[g].accepts(root.fibers[g].epoch()),
        !root.fibers[g].running,
    ensures
        root.refreshed_all(fibers).outbox.len() >= root.outbox.len(),
        (exists|i: int| 0 <= i < fibers.len() && #[trigger] fibers[i] == g) ==> exists|k: int|
            root.outbox.len() <= k < root.refreshed_all(fibers).outbox.len()
                && #[trigger] root.refreshed_all(fibers).outbox[k] == CommandView::Drive(g),
    decreases fibers.len(),
{
    if fibers.len() > 0 {
        let rest = fibers.drop_last();
        let last = fibers.last() as int;
        assert forall|i: int| 0 <= i < rest.len() implies (#[trigger] rest[i])
            < root.fibers.len() by {
            assert(rest[i] == fibers[i]);
        }
        assert(fibers[fibers.len() - 1] < root.fibers.len());
        lemma_ordered(root, rest, g);
        lemma_refreshed_all(root, rest, g);
        let before = root.refreshed_all(rest);
        let after = root.refreshed_all(fibers);
        assert(after == before.refreshed(last));
        if exists|i: int| 0 <= i < rest.len() && #[trigger] rest[i] == g {
            let k = choose|k: int|
                root.outbox.len() <= k < before.outbox.len() && #[trigger] before.outbox[k]
                    == CommandView::Drive(g);
            assert(after.outbox[k] == before.outbox[k]);
        } else if exists|i: int| 0 <= i < fibers.len() && #[trigger] fibers[i] == g {
            let i = choose|i: int| 0 <= i < fibers.len() && #[trigger] fibers[i] == g;
            if i < rest.len() {
                assert(rest[i] == g);
            }
            assert(last == g);
            assert(after.outbox[before.outbox.len() as int] == CommandView::Drive(g));
        }
    }
}

/// Who does not depend on a service is not touched by a change of it: a fiber
/// that is disposed of, resolves the name to another label, or has it nowhere
/// among its requirements. Nor are the services, the listeners or the registry.
pub proof fn law_change_leaves_the_others_alone(
    root: RootView,
    ctx: Context,
    name: Seq<char>,
    label: u64,
    verdicts: Seq<bool>,
    g: int,
)
    requires
        root.fibers.len() <= usize::MAX,
        0 <= g < root.fibers.len(),
        root.fibers[g].uid is None || root.fibers[g].ctx.label_of(name) != label || forall|j: int|
            0 <= j < root.fibers[g].inject.len() ==> #[trigger] root.fibers[g].inject[j] != name,
    ensures
        ({
            let after = root.notified(root.notice_at(ctx, name, label), verdicts);
            &&& after.fibers[g] == root.fibers[g]
            &&& after.fibers.len() == root.fibers.len()
            &&& after.services == root.services
            &&& after.hooks == root.hooks
            &&& after.registry == root.registry
        }),
{
    assert(!root.interested(g, name, label));
    law_change_reaches_its_dependents(root, ctx, name, label, verdicts, g);
}

// ---------------------------------------------------------------------------
// New fibers
// ---------------------------------------------------------------------------

/// A fiber just created runs only if it gets every service that it requires:
/// where one is not registered in its scope, or its provider is neither the
/// root fiber nor active, or it has a predicate that says no, the fiber has no
/// snapshot of it and desires to be inactive.
pub proof fn law_new_fiber_without_a_service_waits(
    root: RootView,
    f: int,
    verdicts: Seq<bool>,
    j: int,
)
    requires
        0 <= f < root.fibers.len(),
        root.fibers[f].store == Map::<Seq<char>, ProviderSnapshot>::empty(),
        0 <= j < root.fibers[f].inject.len(),
        ({
            let required = root.fibers[f].inject[j];
            let key = (required, root.fibers[f].ctx.label_of(required));
            let service = root.services[key];
            let provider = root.fibers[service.provider_uid as int];
            let probes = root.all_questions(f, None);
            ||| !root.services.contains_key(key)
            ||| service.provider_uid != 0 && (service.provider_uid >= root.fibers.len()
                || provider.uid is None || provider.state != FiberState::Active)
            ||| service.check is Some && forall|i: int|
                0 <= i < probes.len() && (#[trigger] probes[i]).name == required ==> !verdicts[i]
        }),
    ensures
        ({
            let after = root.answered(root.all_questions(f, None), verdicts).refreshed(f).fibers[f];
            &&& !after.store.contains_key(root.fibers[f].inject[j])
            &&& after.desired == inactive()
        }),
{
    let probes = root.all_questions(f, None);
    let inject = root.fibers[f].inject;
    let told = root.answered(probes, verdicts);
    lemma_questions(root, f, inject.len() as int, None);
    lemma_questions_fit(root, f, inject.len() as int, None);
    lemma_answered_frame(root, probes, verdicts, f);
    lemma_refreshed(told, f, f);
    assert(root.stale(f, inject[j], None));
    assert(asks(probes, f, inject[j]));
    law_only_active_providers_serve(root, root.fibers[f].ctx, inject[j]);
    assert forall|i: int| #[trigger] asks_at(probes, i, f, inject[j]) implies resolved(
        probes[i].candidate,
        verdicts[i],
    ) is None by {
        assert(probes[i].candidate == root.candidate(root.fibers[f].ctx, inject[j]));
    }
    lemma_answered_no(root, probes, verdicts, f, inject[j]);
    assert(!told.fibers[f].store.contains_key(told.fibers[f].inject[j]));
    assert(told.fibers[f].epoch() == inactive());
}

/// A fiber just created that gets every service that it requires desires to
/// run, and its snapshots say what is registered. A service without a
/// predicate is never refused.
pub proof fn law_new_fiber_with_its_services_runs(root: RootView, f: int, verdicts: Seq<bool>)
    requires
        0 <= f < root.fibers.len(),
        root.fibers[f].store == Map::<Seq<char>, ProviderSnapshot>::empty(),
        forall|j: int|
            0 <= j < root.fibers[f].inject.len() ==> {
                let required = #[trigger] root.fibers[f].inject[j];
                let key = (required, root.fibers[f].ctx.label_of(required));
                let service = root.services[key];
                let provider = root.fibers[service.provider_uid as int];
                &&& root.services.contains_key(key)
                &&& service.provider_uid == 0 || (service.provider_uid < root.fibers.len()
                    && provider.uid is Some && provider.state == FiberState::Active)
                &&& service.check is Some ==> forall|i: int|
                    0 <= i < root.all_questions(f, None).len() && (#[trigger] root.all_questions(
                        f,
                        None,
                    )[i]).name == required ==> verdicts[i]
            },
    ensures
        ({
            let after = root.answered(root.all_questions(f, None), verdicts).refreshed(f).fibers[f];
            &&& after.desired != inactive()
            &&& forall|j: int|
                0 <= j < root.fibers[f].inject.len() ==> {
                    let required = #[trigger] root.fibers[f].inject[j];
                    let service = root.services[(
                        required,
                        root.fibers[f].ctx.label_of(required),
                    )];
                    &&& after.store.contains_key(required)
                    &&& after.store[required].provider_uid == service.provider_uid
                    &&& after.store[required].value == service.value
                    &&& after.store[required].dynamic == (service.compute is Some)
                }
        }),
{
    let probes = root.all_questions(f, None);
    let inject = root.fibers[f].inject;
    let told = root.answered(probes, verdicts);
    lemma_questions(root, f, inject.len() as int, None);
    lemma_questions_fit(root, f, inject.len() as int, None);
    lemma_answered_frame(root, probes, verdicts, f);
    lemma_refreshed(told, f, f);
    assert forall|j: int| 0 <= j < inject.len() implies {
        let required = #[trigger] inject[j];
        let service = root.services[(required, root.fibers[f].ctx.label_of(required))];
        &&& told.fibers[f].store.contains_key(required)
        &&& told.fibers[f].store[required].provider_uid == service.provider_uid
        &&& told.fibers[f].store[required].value == service.value
        &&& told.fibers[f].store[required].dynamic == (service.compute is Some)
    } by {
        let required = inject[j];
        let service = root.services[(required, root.fibers[f].ctx.label_of(required))];
        let fresh = ProviderSnapshot {
            provider_uid: service.provider_uid,
            value: service.value,
            dynamic: service.compute is Some,
        };
        assert(root.stale(f, required, None));
        assert(asks(probes, f, required));
        law_only_active_providers_serve(root, root.fibers[f].ctx, required);
        assert forall|i: int| #[trigger] asks_at(probes, i, f, required) implies resolved(
            probes[i].candidate,
            verdicts[i],
        ) == Some(fresh) by {
            assert(probes[i].candidate == root.candidate(root.fibers[f].ctx, required));
            assert(probes[i].name == required);
        }
        lemma_answered_value(root, probes, verdicts, f, required, fresh);
    }
    law_epoch_active_iff_satisfied(inject, told.fibers[f].store);
    assert(satisfied(inject, told.fibers[f].store));
}

// ---------------------------------------------------------------------------
// Loading
// ---------------------------------------------------------------------------

/// A fiber that is about to run its plugin body looks at its services once more:
/// a snapshot whose provider still offers the service, in the scope of the
/// fiber and being the root fiber or active, says what is registered now; any
/// other snapshot stays. No snapshot is gained or lost, and none changes its
/// provider.
pub proof fn law_snapshots_are_renewed(root: RootView, f: int, name: Seq<char>)
    requires
        0 <= f < root.fibers.len(),
        root.fibers[f].store.contains_key(name),
    ensures
        ({
            let fiber = root.fibers[f];
            let after = root.renewing(f);
            let held = fiber.store[name];
            let key = (name, fiber.ctx.label_of(name));
            let service = root.services[key];
            let provider = root.fibers[service.provider_uid as int];
            let required = exists|j: int|
                0 <= j < fiber.inject.len() && #[trigger] fiber.inject[j] == name;
            let offered = root.services.contains_key(key) && service.provider_uid
                == held.provider_uid && (service.provider_uid == 0 || (service.provider_uid
                < root.fibers.len() && provider.uid is Some && provider.state
                == FiberState::Active));
            &&& after.fibers[f].store.contains_key(name)
            &&& after.fibers[f].store.dom() == fiber.store.dom()
            &&& required && offered ==> after.fibers[f].store[name].value == service.value
                && after.fibers[f].store[name].dynamic == (service.compute is Some)
            &&& !required || !offered ==> after.fibers[f].store[name] == held
            &&& after.fibers[f].store[name].provider_uid == held.provider_uid
            &&& after.fibers[f] == (FiberView { store: after.fibers[f].store, ..fiber })
            &&& after == (RootView { fibers: after.fibers, ..root })
            &&& forall|g: int|
                0 <= g < root.fibers.len() && g != f ==> #[trigger] after.fibers[g]
                    == root.fibers[g]
        }),
{
    let fiber = root.fibers[f];
    let after = root.renewing(f);
    assert(fiber.inject.take(fiber.inject.len() as int) =~= fiber.inject);
    assert(after.fibers[f].store.dom() =~= fiber.store.dom());
    law_only_active_providers_serve(root, fiber.ctx, name);
    if exists|j: int| 0 <= j < fiber.inject.len() && #[trigger] fiber.inject[j] == name {
        assert(fiber.inject.contains(name));
    }
}

// ---------------------------------------------------------------------------
// Epochs
// ---------------------------------------------------------------------------

/// The epoch of a fiber is empty exactly if one of the required services has no
/// snapshot. Else it tells the providers apart: two fibers, or one fiber at
/// two times, with as many requirements have the same epoch exactly if the
/// provider of each requirement is the same.
pub proof fn law_epoch_tells_providers(
    inject: Seq<Seq<char>>,
    store: Map<Seq<char>, ProviderSnapshot>,
    other: Seq<Seq<char>>,
    later: Map<Seq<char>, ProviderSnapshot>,
)
    ensures
        epoch_of(inject, store).len() == 0 <==> exists|j: int|
            0 <= j < inject.len() && !store.contains_key(#[trigger] inject[j]),
        (forall|j: int| 0 <= j < inject.len() ==> store.contains_key(#[trigger] inject[j])) && (
        forall|j: int| 0 <= j < other.len() ==> later.contains_key(#[trigger] other[j])) ==> (
        epoch_of(inject, store) == epoch_of(other, later) <==> (inject.len() == other.len() && (
        forall|j: int|
            0 <= j < inject.len() ==> store[#[trigger] inject[j]].provider_uid
                == later[other[j]].provider_uid))),
{
    law_epoch_active_iff_satisfied(inject, store);
    if epoch_of(inject, store).len() == 0 {
        assert(epoch_of(inject, store) =~= inactive());
    }
    if satisfied(inject, store) && satisfied(other, later) {
        let a = providers(inject, store);
        let b = providers(other, later);
        if epoch_text(a) == epoch_text(b) {
            law_epoch_identifies_providers(a, b);
            assert forall|j: int| 0 <= j < inject.len() implies store[
                #[trigger] inject[j]
            ].provider_uid == later[other[j]].provider_uid by {
                assert(a[j] == b[j]);
            }
        } else if inject.len() == other.len() && forall|j: int|
            0 <= j < inject.len() ==> store[#[trigger] inject[j]].provider_uid
                == later[other[j]].provider_uid {
            assert forall|j: int| 0 <= j < a.len() implies a[j] == b[j] by {
                assert(store[inject[j]].provider_uid == later[other[j]].provider_uid);
            }
            assert(a =~= b);
        }
    }
}

} // verus!
