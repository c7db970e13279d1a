//! Reloading: what becomes of a fiber that is restarted or updated, and of the
//! fibers that depend on what it provides.

use vstd::prelude::*;

use crate::context::Context;
use crate::dispatch::{law_waterfall_order, NextCallView};
use crate::drive::DriveActionView;
use crate::driver::{steps, Action, Event, PhaseView};
use crate::fiber::{
    disposal_order, inactive, DisposerView, EffectView, FiberState, FiberView, ProviderSnapshot,
};
use crate::json::Json;
use crate::lifecycle::DriveStepView;
use crate::reactivity::{
    all_to_be_had, law_change_reaches_its_dependents, law_loss_parks_dependents,
    law_return_wakes_dependents,
};
use crate::resolve::{lemma_same_providers, Reading};
use crate::root::RootView;
use crate::service::{provides, ServiceImpl};

verus! {

// ---------------------------------------------------------------------------
// The fiber itself
// ---------------------------------------------------------------------------

/// A plugin fiber that is up.
pub open spec fn up(fiber: FiberView) -> bool {
    fiber.uid is Some && fiber.runtime is Some && fiber.state == FiberState::Active
        && fiber.sound()
}

/// Asked for a round trip, an active fiber makes one: it unloads everything,
/// then loads the same epoch, and is active again with the same snapshots.
pub open spec fn round_trip(before: FiberView, asked: FiberView) -> bool {
    let unloaded = asked.round(None);
    let done = asked.rounds(3, None);
    &&& asked.step() == (DriveStepView::Unload { forced: true })
    &&& unloaded.effects == Seq::<Option<EffectView>>::empty()
    &&& unloaded.step() == (DriveStepView::Load { target: before.desired })
    &&& done.at_rest()
    &&& done.loaded == before.desired
    &&& done.store == before.store
    &&& done.raw_config == asked.raw_config
    &&& up(done)
}

proof fn lemma_round_trip(root: RootView, f: int)
    requires
        0 <= f < root.fibers.len(),
        up(root.fibers[f]),
    ensures
        round_trip(root.fibers[f], root.restarted(f).fibers[f]),
        root.restarted(f).fibers[f].raw_config == root.fibers[f].raw_config,
        root.restarted(f).fibers[f].effects == root.fibers[f].effects,
        root.restarted(f).fibers[f].force,
        forall|g: int|
            0 <= g < root.fibers.len() && g != f ==> #[trigger] root.restarted(f).fibers[g]
                == root.fibers[g],
{
    reveal_with_fuel(FiberView::rounds, 4);
}

/// A restart of an active fiber is a full round trip, however often it is
/// restarted: what it leaves behind is an active fiber again, with a snapshot
/// of every service of which it had one.
pub proof fn law_restart_is_a_round_trip(root: RootView, f: int)
    requires
        0 <= f < root.fibers.len(),
        up(root.fibers[f]),
    ensures
        round_trip(root.fibers[f], root.restarted(f).fibers[f]),
        root.restarted(f).fibers[f].rounds(3, None).raw_config == root.fibers[f].raw_config,
{
    lemma_round_trip(root, f);
}

/// An update of an active fiber is a full round trip with the new config.
pub proof fn law_update_is_a_round_trip(root: RootView, f: int, config: Json)
    requires
        0 <= f < root.fibers.len(),
        up(root.fibers[f]),
    ensures
        round_trip(root.fibers[f], root.updated(f, config).fibers[f]),
        root.updated(f, config).fibers[f].rounds(3, None).raw_config == config,
{
    let given = root.with_fiber(f, FiberView { raw_config: config, ..root.fibers[f] });
    lemma_round_trip(given, f);
}

/// A fiber that was restarted can be restarted again, and updated, whatever
/// values its snapshots were renewed to when it loaded.
pub proof fn law_restart_after_restart(root: RootView, later: RootView, f: int, config: Json)
    requires
        0 <= f < root.fibers.len(),
        0 <= f < later.fibers.len(),
        up(root.fibers[f]),
        later.fibers[f] == (FiberView {
            store: later.fibers[f].store,
            ..root.restarted(f).fibers[f].rounds(3, None)
        }),
        later.fibers[f].epoch() == root.fibers[f].epoch(),
    ensures
        up(later.fibers[f]),
        round_trip(later.fibers[f], later.restarted(f).fibers[f]),
        round_trip(later.fibers[f], later.updated(f, config).fibers[f]),
{
    law_restart_is_a_round_trip(root, f);
    assert(root.restarted(f).fibers[f].rounds(3, None).desired == root.fibers[f].desired);
    law_restart_is_a_round_trip(later, f);
    law_update_is_a_round_trip(later, f, config);
}

/// A fiber that loads sees what its providers offer at that moment: where the
/// provider that it has offers a service still, the snapshot is of what it
/// offers now, whatever was set since. Its providers, and so its epoch, are
/// the ones that it had.
pub proof fn law_load_sees_current_values(root: RootView, f: int, name: Seq<char>)
    requires
        0 <= f < root.fibers.len(),
        root.drive_action(f) is Load,
        root.fibers[f].inject.contains(name),
        root.fibers[f].store.contains_key(name),
    ensures
        ({
            let held = root.fibers[f].store[name];
            let after = root.driven(f).fibers[f];
            &&& after.store.dom() == root.fibers[f].store.dom()
            &&& after.store[name].provider_uid == held.provider_uid
            &&& after.epoch() == root.fibers[f].epoch()
            &&& after.store[name] == match root.available(root.fibers[f].ctx, name) {
                Some(service) if service.provider_uid == held.provider_uid => ProviderSnapshot {
                    provider_uid: held.provider_uid,
                    value: service.value,
                    dynamic: service.compute is Some,
                },
                _ => held,
            }
        }),
{
    let fiber = root.fibers[f];
    let after = root.driven(f).fibers[f];
    assert(fiber.inject.take(fiber.inject.len() as int) =~= fiber.inject);
    assert(after.store.dom() =~= fiber.store.dom());
    lemma_same_providers(fiber.inject, fiber.store, after.store);
}

/// Restarting a fiber that has nothing loaded, because its startup failed or
/// because it waits, runs its body once: there is nothing to unload first,
/// and nothing is left to do afterwards.
pub proof fn law_restart_loads_once(root: RootView, f: int)
    requires
        0 <= f < root.fibers.len(),
        root.fibers[f].uid is Some,
        root.fibers[f].runtime is Some,
        root.fibers[f].loaded == inactive(),
        root.fibers[f].epoch() != inactive(),
    ensures
        root.restarted(f).fibers[f].step() == (DriveStepView::Load {
            target: root.fibers[f].epoch(),
        }),
        root.restarted(f).fibers[f].round(None).step() is Settle,
        root.restarted(f).fibers[f].rounds(2, None).at_rest(),
        root.restarted(f).fibers[f].rounds(2, None).state == FiberState::Active,
{
    reveal_with_fuel(FiberView::rounds, 3);
}

/// An updated fiber runs its body with the new config: once it has unloaded,
/// its driver hands exactly that config to the config hooks, and what they and
/// the validation make of it to the body. Without config hooks that is the new
/// config itself.
pub proof fn law_updated_config_is_applied(
    root: RootView,
    f: int,
    config: Json,
    unloaded: RootView,
    go: Event,
    looked: RootView,
    phase: PhaseView,
    action: Action,
    resolved: Json,
    event: Event,
    after: RootView,
    applying: PhaseView,
    apply: Action,
)
    requires
        0 <= f < root.fibers.len(),
        0 <= f < unloaded.fibers.len(),
        up(root.fibers[f]),
        unloaded.fibers[f] == root.updated(f, config).fibers[f].round(None),
        steps(unloaded, PhaseView::Looking, go, f, looked, phase, action),
        event == Event::Resolved(Ok(resolved)),
        steps(looked, phase, event, f, after, applying, apply),
    ensures
        action matches Action::Resolve { call } && call@ == unloaded.config_chain(f).run(config),
        unloaded.reached("internal/config"@, None).len() == 0 ==> (
        action matches Action::Resolve { call } && call@ == NextCallView::Value(config)),
        apply == (Action::Apply { config: resolved }),
        after.fibers[f].config == resolved,
{
    law_update_is_a_round_trip(root, f, config);
    assert(unloaded.fibers[f].raw_config == config);
}

/// An update happens only if every update hook continues. `n` of them have;
/// as long as there is another one, continuing leads to it and not to what
/// applies the update, so if it does not continue the fiber stays as it is,
/// and a later restart runs with the config that it had. Once all have
/// continued, the update is applied with whatever config they passed on.
pub proof fn law_update_can_be_vetoed(
    root: RootView,
    f: int,
    fallback: u64,
    n: nat,
    payload: Json,
)
    requires
        0 <= f < root.fibers.len(),
        n <= root.update_chain(f, fallback).steps.len(),
    ensures
        n < root.update_chain(f, fallback).steps.len() ==> (root.update_chain(f, fallback).after(
            n,
        ).run(payload) matches NextCallView::Listener { callback, rest, .. } && callback
            == root.update_chain(f, fallback).steps[n as int] && rest == root.update_chain(
            f,
            fallback,
        ).after(n + 1)),
        n == root.update_chain(f, fallback).steps.len() ==> root.update_chain(f, fallback).after(
            n,
        ).run(payload) == (NextCallView::Fallback { fallback, payload }),
        up(root.fibers[f]) ==> root.restarted(f).fibers[f].rounds(3, None).raw_config
            == root.fibers[f].raw_config,
{
    law_waterfall_order(root.update_chain(f, fallback), n, payload);
    if up(root.fibers[f]) {
        law_restart_is_a_round_trip(root, f);
    }
}

// ---------------------------------------------------------------------------
// Its dependents
// ---------------------------------------------------------------------------

/// Every live effect has its turn when a fiber disposes of its effects.
pub proof fn lemma_disposed_of(effects: Seq<Option<EffectView>>, i: int)
    requires
        0 <= i < effects.len(),
        effects[i] is Some,
    ensures
        disposal_order(effects).contains(effects[i].unwrap().disposer),
    decreases effects.len(),
{
    let all = disposal_order(effects);
    let disposer = effects[i].unwrap().disposer;
    let rest = effects.drop_last();
    if i == effects.len() - 1 {
        assert(all[0] == disposer);
    } else {
        lemma_disposed_of(rest, i);
        let earlier = disposal_order(rest);
        let k = choose|k: int| 0 <= k < earlier.len() && earlier[k] == disposer;
        if effects.last() is Some {
            assert(all[k + 1] == disposer);
        } else {
            assert(all[k] == disposer);
        }
    }
}

/// An update of a provider withdraws all that it provides, and leaves every
/// other fiber alone until then.
pub proof fn law_update_withdraws_services(
    root: RootView,
    p: int,
    config: Json,
    i: int,
    ctx: Context,
    name: Seq<char>,
    c: int,
)
    requires
        0 <= p < root.fibers.len(),
        0 <= c < root.fibers.len(),
        c != p,
        up(root.fibers[p]),
        0 <= i < root.fibers[p].effects.len(),
        root.fibers[p].effects[i] matches Some(effect) && effect.disposer
            == (DisposerView::Withdraw { ctx, name }),
    ensures
        root.updated(p, config).drive_action(p) matches DriveActionView::Unload {
            forced,
            disposers,
        } && forced && disposers.contains(DisposerView::Withdraw { ctx, name }),
        root.updated(p, config).driven(p).fibers[c] == root.fibers[c],
{
    let given = root.with_fiber(p, FiberView { raw_config: config, ..root.fibers[p] });
    lemma_round_trip(given, p);
    assert(given.restarted(p).fibers[c] == given.fibers[c]);
    lemma_disposed_of(root.fibers[p].effects, i);
}

/// A dependent that is told of a loss, driven `n` rounds from there.
proof fn lemma_lost(before: FiberView, told: FiberView, n: nat)
    requires
        up(before),
        told == (FiberView { store: told.store, ..before }).refreshing(),
        told.desired == inactive(),
    ensures
        told.step() == (DriveStepView::Unload { forced: true }),
        told.force,
        told.loaded == before.loaded,
        told.rounds(n, None).uid == before.uid,
        told.rounds(n, None).runtime == before.runtime,
        told.rounds(n, None).ctx == before.ctx,
        told.rounds(n, None).inject == before.inject,
        told.rounds(n, None).desired == inactive(),
        n > 0 ==> {
            &&& told.rounds(n, None).loaded == inactive()
            &&& !told.rounds(n, None).force
            &&& told.rounds(n, None).effects == Seq::<Option<EffectView>>::empty()
        },
    decreases n,
{
    if n > 0 {
        lemma_idle(told.round(None), (n - 1) as nat);
    }
}

/// An idle fiber stays idle.
proof fn lemma_idle(fiber: FiberView, n: nat)
    requires
        fiber.desired == inactive(),
        fiber.loaded == inactive(),
        !fiber.force,
    ensures
        fiber.rounds(n, None).uid == fiber.uid,
        fiber.rounds(n, None).runtime == fiber.runtime,
        fiber.rounds(n, None).ctx == fiber.ctx,
        fiber.rounds(n, None).inject == fiber.inject,
        fiber.rounds(n, None).effects == fiber.effects,
        fiber.rounds(n, None).desired == inactive(),
        fiber.rounds(n, None).loaded == inactive(),
        !fiber.rounds(n, None).force,
    decreases n,
{
    if n > 0 {
        lemma_idle(fiber.round(None), (n - 1) as nat);
    }
}

/// What an update of the provider `p` does to the active dependent `c`.
///
/// The update has `p` unload, which withdraws the service `name`. `leaving`
/// is the root when that disposer is reached, with `c` as it was. `c` is told,
/// and has to unload: its driver makes `n` rounds, none if it is slow. `back`
/// is the root when `p` tells of the service again, `service` being what it
/// has provided by then. `c` is then sent to load with the providers that are
/// there; where it has not unloaded yet, it does so first. It ends up active,
/// with its former effects disposed of. Its body reads the new value: `later`
/// is the root when the driver looks and loads, with the service still there,
/// and `reader` any context of `c`.
pub proof fn law_hot_update_reloads_dependents(
    root: RootView,
    p: int,
    c: int,
    config: Json,
    i: int,
    ctx: Context,
    name: Seq<char>,
    leaving: RootView,
    lost: Seq<bool>,
    n: nat,
    back: RootView,
    again: Seq<bool>,
    service: ServiceImpl,
    later: RootView,
    reader: Context,
)
    requires
        0 <= p < root.fibers.len(),
        0 <= c < root.fibers.len(),
        c != p,
        up(root.fibers[p]),
        up(root.fibers[c]),
        0 <= i < root.fibers[p].effects.len(),
        root.fibers[p].effects[i] matches Some(effect) && effect.disposer
            == (DisposerView::Withdraw { ctx, name }),
        root.interested(c, name, ctx.label_of(name)),
        leaving.fibers.len() <= usize::MAX,
        c < leaving.fibers.len(),
        leaving.fibers[c] == root.updated(p, config).driven(p).fibers[c],
        back.fibers.len() <= usize::MAX,
        c < back.fibers.len(),
        back.fibers[c] == leaving.undone(DisposerView::Withdraw { ctx, name }).notified(
            leaving.undone(DisposerView::Withdraw { ctx, name }).notice(ctx, name),
            lost,
        ).fibers[c].rounds(n, None),
        back.available(ctx, name) == Some(service),
        service.compute is None,
        all_to_be_had(back, c, name),
        again.len() == back.notice(ctx, name).probes.len(),
        forall|k: int| 0 <= k < again.len() ==> #[trigger] again[k],
        c < later.fibers.len() <= usize::MAX,
    ensures
        root.updated(p, config).drive_action(p) matches DriveActionView::Unload {
            forced,
            disposers,
        } && forced && disposers.contains(DisposerView::Withdraw { ctx, name }),
        ({
            let withdrawn = leaving.undone(DisposerView::Withdraw { ctx, name });
            let told = withdrawn.notified(withdrawn.notice(ctx, name), lost).fibers[c];
            let woken = back.notified(back.notice(ctx, name), again).fibers[c];
            let done = woken.rounds(3, None);
            &&& told.desired == inactive()
            &&& told.step() == (DriveStepView::Unload { forced: true })
            &&& woken.desired != inactive()
            &&& n == 0 ==> {
                &&& woken.step() == (DriveStepView::Unload { forced: true })
                &&& woken.round(None).effects == Seq::<Option<EffectView>>::empty()
                &&& woken.round(None).step() == (DriveStepView::Load { target: woken.desired })
            }
            &&& n > 0 ==> {
                &&& back.fibers[c].loaded == inactive()
                &&& back.fibers[c].effects == Seq::<Option<EffectView>>::empty()
                &&& woken.step() == (DriveStepView::Load { target: woken.desired })
            }
            &&& done.at_rest()
            &&& done.loaded == woken.desired
            &&& up(done)
            &&& later.fibers[c] == (if n == 0 {
                woken.round(None)
            } else {
                woken
            }) && later.available(ctx, name) == Some(service) && reader.fiber == Some(c as usize)
                ==> {
                &&& later.drive_action(c) == (DriveActionView::Load { target: woken.desired })
                &&& later.driven(c).reading(reader, name) == Reading::Value(service.value)
            }
        }),
{
    law_update_withdraws_services(root, p, config, i, ctx, name, c);
    let label = ctx.label_of(name);
    let withdrawn = leaving.undone(DisposerView::Withdraw { ctx, name });
    assert(withdrawn.fibers == leaving.fibers);
    assert(withdrawn.interested(c, name, label));
    law_loss_parks_dependents(withdrawn, ctx, name, label, lost, c);
    law_change_reaches_its_dependents(withdrawn, ctx, name, label, lost, c);
    let told = withdrawn.notified(withdrawn.notice(ctx, name), lost).fibers[c];
    lemma_lost(root.fibers[c], told, n);
    assert(back.interested(c, name, label));
    law_return_wakes_dependents(back, ctx, name, label, again, c);
    law_change_reaches_its_dependents(back, ctx, name, label, again, c);
    let woken = back.notified(back.notice(ctx, name), again).fibers[c];
    assert(back.available(back.fibers[c].ctx, name) == Some(service));
    if n == 0 {
        assert(back.fibers[c] == told);
    }
    reveal_with_fuel(FiberView::rounds, 4);
    assert(later.fibers[c].inject.take(later.fibers[c].inject.len() as int)
        =~= later.fibers[c].inject);
}

// ---------------------------------------------------------------------------
// A provider that becomes active
// ---------------------------------------------------------------------------

/// These services told of from `ctx`, one after another; `answers[i]` is what the
/// predicates say when service `i` is told of.
pub open spec fn told_of(
    root: RootView,
    ctx: Context,
    services: Seq<(Seq<char>, u64)>,
    answers: Seq<Seq<bool>>,
) -> RootView
    decreases services.len(),
{
    if services.len() == 0 {
        root
    } else {
        let earlier = told_of(root, ctx, services.drop_last(), answers);
        earlier.notified(
            earlier.notice_at(ctx, services.last().0, services.last().1),
            answers[services.len() - 1],
        )
    }
}

/// A fiber whose plugin body completed tells of every service that it
/// provides, in whatever scope: its driver has exactly these before it.
pub proof fn law_activation_tells_every_scope(
    root: RootView,
    f: int,
    target: Seq<char>,
    event: Event,
    after: RootView,
    phase: PhaseView,
    action: Action,
    key: (Seq<char>, u64),
)
    requires
        0 <= f < root.fibers.len(),
        event matches Event::Applied(Ok(_)),
        steps(root, PhaseView::Applying { target }, event, f, after, phase, action),
    ensures
        phase matches PhaseView::Broadcasting { services } && (services.contains(key) <==> (
        root.fibers[f].uid matches Some(uid) && provides(root.services, uid, key))),
        after.services == root.services,
{
}

/// A driver that tells of services tells of the first one and goes on with
/// the others.
pub proof fn law_broadcast_goes_on(
    root: RootView,
    f: int,
    services: Seq<(Seq<char>, u64)>,
    go: Event,
    asked: RootView,
    telling: PhaseView,
    ask: Action,
    verdicts: Event,
    after: RootView,
    phase: PhaseView,
    action: Action,
)
    requires
        services.len() > 0,
        steps(root, PhaseView::Broadcasting { services }, go, f, asked, telling, ask),
        steps(asked, telling, verdicts, f, after, phase, action),
    ensures
        verdicts matches Event::Verdicts(v) && after == root.notified(
            root.notice_at(root.fibers[f].ctx, services[0].0, services[0].1),
            v@,
        ),
        phase == (PhaseView::Broadcasting { services: services.drop_first() }),
{
}

/// Telling of services changes neither what is provided nor what a fiber is,
/// and reaches no fiber that depends on none of them.
proof fn lemma_told_of(
    root: RootView,
    ctx: Context,
    services: Seq<(Seq<char>, u64)>,
    answers: Seq<Seq<bool>>,
    g: int,
)
    requires
        root.fibers.len() <= usize::MAX,
        0 <= g < root.fibers.len(),
    ensures
        told_of(root, ctx, services, answers).fibers.len() == root.fibers.len(),
        told_of(root, ctx, services, answers).services == root.services,
        told_of(root, ctx, services, answers).fibers[g].uid == root.fibers[g].uid,
        told_of(root, ctx, services, answers).fibers[g].inject == root.fibers[g].inject,
        told_of(root, ctx, services, answers).fibers[g].ctx == root.fibers[g].ctx,
        (forall|k: int|
            0 <= k < services.len() ==> !#[trigger] depends(root, g, services[k])) ==> told_of(
            root,
            ctx,
            services,
            answers,
        ).fibers[g] == root.fibers[g],
    decreases services.len(),
{
    if services.len() > 0 {
        let rest = services.drop_last();
        lemma_told_of(root, ctx, rest, answers, g);
        let earlier = told_of(root, ctx, rest, answers);
        let last = services.last();
        law_change_reaches_its_dependents(
            earlier,
            ctx,
            last.0,
            last.1,
            answers[services.len() - 1],
            g,
        );
        if forall|k: int| 0 <= k < services.len() ==> !#[trigger] depends(root, g, services[k]) {
            assert forall|k: int| 0 <= k < rest.len() implies !#[trigger] depends(
                root,
                g,
                rest[k],
            ) by {
                assert(!depends(root, g, services[k]));
            }
            assert(!depends(root, g, services[services.len() - 1]));
        }
    }
}

/// The running fiber `g` requires the service `key`.
pub open spec fn depends(root: RootView, g: int, key: (Seq<char>, u64)) -> bool {
    root.interested(g, key.0, key.1)
}

/// A provider that becomes active wakes its dependents in every scope that it
/// serves. `before` is the root when the plugin body of `p` has completed;
/// `services` are what its driver tells of from then on, `i` the turn of the
/// one that `g` requires in its scope. When that turn comes `p` is active and
/// the service is there; if what else `g` requires is to be had then, and the
/// predicates agree, `g` is sent to load with a fresh snapshot.
pub proof fn law_activation_wakes_dependents(
    before: RootView,
    p: int,
    target: Seq<char>,
    services: Seq<(Seq<char>, u64)>,
    answers: Seq<Seq<bool>>,
    i: int,
    g: int,
)
    requires
        0 < p < before.fibers.len() <= usize::MAX,
        before.fibers[p].uid == Some(p as u64),
        before.fibers[p].desired == target,
        target != inactive(),
        !before.fibers[p].dirty,
        0 <= i < services.len(),
        provides(before.services, p as u64, services[i]),
        forall|k: int| 0 <= k < i ==> !#[trigger] depends(before, p, services[k]),
        0 <= g < before.fibers.len(),
        depends(before, g, services[i]),
        ({
            let ctx = before.fibers[p].ctx;
            let turn = told_of(before.load_finished(p, target), ctx, services.take(i), answers);
            &&& forall|j: int|
                0 <= j < turn.fibers[g].inject.len() && #[trigger] turn.fibers[g].inject[j]
                    != services[i].0 && turn.stale(g, turn.fibers[g].inject[j], None)
                    ==> turn.candidate(turn.fibers[g].ctx, turn.fibers[g].inject[j]) is Some
            &&& answers[i].len() == turn.notice_at(ctx, services[i].0, services[i].1).probes.len()
        }),
        forall|k: int| 0 <= k < answers[i].len() ==> #[trigger] answers[i][k],
    ensures
        ({
            let ctx = before.fibers[p].ctx;
            let turn = told_of(before.load_finished(p, target), ctx, services.take(i), answers);
            let told = told_of(before.load_finished(p, target), ctx, services.take(i + 1), answers);
            &&& told == turn.notified(turn.notice_at(ctx, services[i].0, services[i].1), answers[i])
            &&& turn.available_at(services[i].0, services[i].1) == Some(
                before.services[services[i]],
            )
            &&& told.fibers[g].desired != inactive()
            &&& told.fibers[g].store.contains_key(services[i].0)
            &&& told.fibers[g].store[services[i].0].provider_uid == p
            &&& told.fibers[g].store[services[i].0].value == before.services[services[i]].value
        }),
{
    let ctx = before.fibers[p].ctx;
    let root = before.load_finished(p, target);
    let key = services[i];
    let turn = told_of(root, ctx, services.take(i), answers);
    assert(services.take(i + 1).drop_last() =~= services.take(i));
    assert(services.take(i + 1).last() == key);
    assert forall|k: int| 0 <= k < services.take(i).len() implies !#[trigger] depends(
        root,
        p,
        services.take(i)[k],
    ) by {
        assert(!depends(before, p, services[k]));
    }
    assert(root.fibers[p].state == FiberState::Active);
    lemma_told_of(root, ctx, services.take(i), answers, p);
    lemma_told_of(root, ctx, services.take(i), answers, g);
    assert(turn.provider_live(p as u64));
    assert(turn.services.contains_key(key));
    assert(turn.interested(g, key.0, key.1));
    assert(turn.candidate(turn.fibers[g].ctx, key.0) is Some);
    assert forall|j: int|
        0 <= j < turn.fibers[g].inject.len() && turn.stale(
            g,
            #[trigger] turn.fibers[g].inject[j],
            Some(key.0),
        ) implies turn.candidate(turn.fibers[g].ctx, turn.fibers[g].inject[j]) is Some by {
        if turn.fibers[g].inject[j] != key.0 {
            assert(turn.stale(g, turn.fibers[g].inject[j], None));
        }
    }
    law_return_wakes_dependents(turn, ctx, key.0, key.1, answers[i], g);
}

} // verus!
