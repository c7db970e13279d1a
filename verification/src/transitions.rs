//! What each transition does to a fiber and to its root, field by field.

use vstd::prelude::*;

use crate::context::Context;
use crate::dispatch::NextCallView;
use crate::driver::{steps, Action, Event, PhaseView};
use crate::error::Error;
use crate::events::{deliveries, hooks_of, Delivery, Hook};
use crate::fiber::{epoch_of, inactive, law_epoch_active_iff_satisfied, FiberState, FiberView};
use crate::handle::join_outcome;
use crate::json::Json;
use crate::logger::LogLevel;
use crate::registry::FiberHandle;
use crate::resolve::NoticeView;
use crate::root::{CommandView, InternalEventView, RootView};
use crate::service::provides;

verus! {

// ---------------------------------------------------------------------------
// What transitions are spoken of with
// ---------------------------------------------------------------------------

/// The state of a fiber says what its other fields amount to. Each state has
/// its condition, and every fiber meets exactly one of the six.
pub open spec fn state_fits(fiber: FiberView) -> bool {
    match fiber.state {
        FiberState::Disposed => fiber.uid is None,
        FiberState::Unloading => fiber.uid is Some && (fiber.dirty || fiber.loaded != fiber.desired)
            && fiber.desired.len() == 0,
        FiberState::Loading => fiber.uid is Some && (fiber.dirty || fiber.loaded != fiber.desired)
            && fiber.desired.len() > 0,
        FiberState::Active => fiber.uid is Some && !fiber.dirty && fiber.loaded == fiber.desired
            && fiber.loaded.len() > 0,
        FiberState::Failed => fiber.uid is Some && !fiber.dirty && fiber.loaded == fiber.desired
            && fiber.loaded.len() == 0 && fiber.error is Some,
        FiberState::Pending => fiber.uid is Some && !fiber.dirty && fiber.loaded == fiber.desired
            && fiber.loaded.len() == 0 && fiber.error is None,
    }
}

/// Nothing changes but the fiber `f` and what is left to do.
pub open spec fn only_fiber(before: RootView, after: RootView, f: int) -> bool {
    &&& after == (RootView { fibers: after.fibers, outbox: after.outbox, ..before })
    &&& after.fibers.len() == before.fibers.len()
    &&& forall|g: int|
        0 <= g < before.fibers.len() && g != f ==> #[trigger] after.fibers[g] == before.fibers[g]
}

/// The report of the state of a fiber to whoever listens to `internal/status`,
/// from the context of the fiber.
pub open spec fn report(root: RootView, fiber: FiberView) -> CommandView {
    CommandView::Emit {
        ctx: fiber.ctx,
        event: InternalEventView::Status { fiber: fiber.name, uid: fiber.uid, state: fiber.state },
        deliveries: if root.hooks.contains_key("internal/status"@) {
            deliveries(root.hooks["internal/status"@], None)
        } else {
            Seq::empty()
        },
    }
}

/// The order to start the driver of a fiber that has none.
pub open spec fn order(fiber: FiberView, f: int) -> Seq<CommandView> {
    if fiber.running {
        Seq::empty()
    } else {
        seq![CommandView::Drive(f)]
    }
}

/// A startup failed: nothing is loaded or desired, the error is kept, it is
/// logged under the name of the fiber for the logger that its context sees,
/// and whoever waits or observes hears of it.
pub open spec fn fails(before: RootView, after: RootView, f: int, error: Error) -> bool {
    let fiber = after.fibers[f];
    &&& only_fiber(before, after, f)
    &&& fiber == (FiberView {
        error: Some(error.deep()),
        loaded: Seq::empty(),
        desired: Seq::empty(),
        state: fiber.state,
        ..before.fibers[f]
    })
    &&& state_fits(fiber)
    &&& after.outbox == before.outbox + seq![
        CommandView::Log {
            ctx: fiber.ctx,
            level: LogLevel::Error,
            topic: "fiber"@,
            code: error.code_text(),
            message: fiber.name + ": "@ + error.text(),
        },
        CommandView::Settle(f),
        report(before, fiber),
    ]
}

proof fn lemma_empty(epoch: Seq<char>)
    ensures
        epoch.len() == 0 <==> epoch == inactive(),
{
    if epoch.len() == 0 {
        assert(epoch =~= inactive());
    }
}

proof fn lemma_cached(fiber: FiberView)
    ensures
        state_fits(fiber.cached()),
        fiber.cached() == (FiberView { state: fiber.cached().state, ..fiber }),
{
    lemma_empty(fiber.desired);
    lemma_empty(fiber.loaded);
}

// ---------------------------------------------------------------------------
// States
// ---------------------------------------------------------------------------

/// The state that a fiber publishes follows from its flags: disposed without a
/// uid; unloading or loading while it has not converged, by what it desires;
/// and once it has, active with something loaded, failed with an error, else
/// pending. Publishing it changes nothing else.
pub proof fn law_state_follows_the_flags(fiber: FiberView, state: FiberState)
    ensures
        state_fits(FiberView { state: fiber.derived(), ..fiber }),
        state_fits(FiberView { state, ..fiber }) ==> state == fiber.derived(),
        fiber.cached() == (FiberView { state: fiber.derived(), ..fiber }),
{
    lemma_cached(fiber);
    lemma_empty(fiber.desired);
    lemma_empty(fiber.loaded);
}

/// Waiting for a fiber goes on as long as it is asked for something, driven or
/// not where it desires to be. Then it comes to the startup error, or to
/// success.
pub proof fn law_waiting_ends_with_the_work(
    fiber: FiberView,
    outcome: Option<Result<(), Error>>,
)
    requires
        join_outcome(fiber, outcome),
    ensures
        outcome is None <==> fiber.dirty || fiber.running || fiber.loaded != fiber.desired,
        outcome matches Some(Ok(_)) ==> fiber.error is None,
        outcome matches Some(Err(error)) ==> fiber.error == Some(error.deep()),
{
}

/// A handle speaks of the fiber that it was made for.
pub proof fn law_handle_names_its_fiber(handle: FiberHandle, root: RootView)
    ensures
        handle.of(root) == root.fibers[handle.0 as int],
{
}

// ---------------------------------------------------------------------------
// Requests
// ---------------------------------------------------------------------------

/// Asking a fiber for an epoch that it desires already, with no request
/// outstanding, does nothing. Any other request is taken down: the epoch is
/// desired, the driver has to look, and there is a driver; a request to stop
/// makes sure that what is loaded will be unloaded. Waiters and observers hear
/// of it. What is loaded, remembered, registered or failed stays as it is.
pub proof fn law_request_is_taken_down(root: RootView, f: int, desired: Seq<char>)
    requires
        0 <= f < root.fibers.len(),
    ensures
        ({
            let fiber = root.fibers[f];
            let after = root.requested(f, desired);
            let asked = after.fibers[f];
            &&& fiber.desired == desired && !fiber.dirty ==> after == root
            &&& fiber.desired != desired || fiber.dirty ==> {
                &&& only_fiber(root, after, f)
                &&& asked == (FiberView {
                    desired,
                    dirty: true,
                    running: true,
                    force: fiber.force || desired.len() == 0,
                    state: asked.state,
                    ..fiber
                })
                &&& state_fits(asked)
                &&& after.outbox == root.outbox + order(fiber, f) + seq![
                    CommandView::Settle(f),
                    report(root, asked),
                ]
            }
        }),
{
    let fiber = root.fibers[f];
    let after = root.requested(f, desired);
    lemma_empty(desired);
    lemma_cached(fiber.requested(desired));
    if fiber.accepts(desired) {
        assert(after.outbox =~= root.outbox + order(fiber, f) + seq![
            CommandView::Settle(f),
            report(root, after.fibers[f]),
        ]);
    }
}

/// What a fiber is asked for after its snapshots have changed: to stop exactly
/// if one of its required services has no snapshot, else to run with the
/// providers that the snapshots name.
pub proof fn law_refresh_asks_for_what_is_there(root: RootView, f: int)
    requires
        0 <= f < root.fibers.len(),
    ensures
        ({
            let fiber = root.fibers[f];
            let after = root.refreshed(f);
            let missing = exists|j: int|
                0 <= j < fiber.inject.len() && !fiber.store.contains_key(
                    #[trigger] fiber.inject[j],
                );
            &&& after == root.requested(f, epoch_of(fiber.inject, fiber.store))
            &&& after.fibers[f].desired == epoch_of(fiber.inject, fiber.store)
            &&& after.fibers[f].desired.len() == 0 <==> missing
            &&& after.fibers[f].store == fiber.store
            &&& after.fibers[f].loaded == fiber.loaded
        }),
{
    let fiber = root.fibers[f];
    law_epoch_active_iff_satisfied(fiber.inject, fiber.store);
    lemma_empty(epoch_of(fiber.inject, fiber.store));
}

/// A restart forgets the last startup error and makes sure of an unload and a
/// fresh look, with the driver started where there is none. It asks for the
/// epoch that the snapshots call for; config, snapshots and effects stay.
pub proof fn law_restart_asks_for_a_round_trip(root: RootView, f: int)
    requires
        0 <= f < root.fibers.len(),
    ensures
        ({
            let fiber = root.fibers[f];
            let after = root.restarted(f);
            let asked = after.fibers[f];
            &&& only_fiber(root, after, f)
            &&& asked == (FiberView {
                error: None,
                force: true,
                dirty: true,
                running: true,
                desired: epoch_of(fiber.inject, fiber.store),
                state: asked.state,
                ..fiber
            })
            &&& state_fits(asked)
            &&& after.outbox == root.outbox + order(fiber, f) + seq![
                CommandView::Settle(f),
                CommandView::Settle(f),
                report(root, asked),
            ]
        }),
{
    let fiber = root.fibers[f];
    let after = root.restarted(f);
    lemma_cached(fiber.restarting().requested(fiber.epoch()));
    assert(after.outbox =~= root.outbox + order(fiber, f) + seq![
        CommandView::Settle(f),
        CommandView::Settle(f),
        report(root, after.fibers[f]),
    ]);
}

/// An update is a restart with another config, and with nothing else changed.
pub proof fn law_update_is_a_restart_with_its_config(root: RootView, f: int, config: Json)
    requires
        0 <= f < root.fibers.len(),
    ensures
        ({
            let after = root.updated(f, config);
            let restarted = root.restarted(f);
            &&& only_fiber(root, after, f)
            &&& after.fibers[f] == (FiberView { raw_config: config, ..restarted.fibers[f] })
            &&& after.outbox == restarted.outbox
        }),
{
    let given = root.with_fiber(f, FiberView { raw_config: config, ..root.fibers[f] });
    law_restart_asks_for_a_round_trip(root, f);
    law_restart_asks_for_a_round_trip(given, f);
    assert(root.updated(f, config).fibers[f] =~= (FiberView {
        raw_config: config,
        ..root.restarted(f).fibers[f]
    }));
}

/// Disposing of a fiber takes its uid, which makes it disposed at once, tells
/// the observers of `internal/plugin` from its context, and asks it to stop.
/// Effects, snapshots and what is loaded are left to its driver.
pub proof fn law_disposal_takes_the_uid(root: RootView, f: int)
    requires
        0 <= f < root.fibers.len(),
        root.fibers[f].uid is Some,
    ensures
        ({
            let fiber = root.fibers[f];
            let after = root.disposed(f);
            let gone = after.fibers[f];
            let idle = fiber.desired.len() == 0 && !fiber.dirty;
            let told = CommandView::Emit {
                ctx: fiber.ctx,
                event: InternalEventView::PluginDisposed {
                    fiber: fiber.name,
                    uid: fiber.uid.unwrap(),
                },
                deliveries: deliveries(hooks_of(root.hooks, "internal/plugin"@), None),
            };
            &&& only_fiber(RootView { registry: after.registry, ..root }, after, f)
            &&& gone == (FiberView {
                uid: None,
                state: FiberState::Disposed,
                desired: Seq::empty(),
                dirty: !idle,
                running: fiber.running || !idle,
                force: fiber.force || !idle,
                ..fiber
            })
            &&& after.outbox == root.outbox.push(told) + if idle {
                Seq::empty()
            } else {
                order(fiber, f) + seq![CommandView::Settle(f), report(root, gone)]
            }
        }),
{
    let fiber = root.fibers[f];
    let after = root.disposed(f);
    lemma_empty(fiber.desired);
    let told = CommandView::Emit {
        ctx: fiber.ctx,
        event: InternalEventView::PluginDisposed { fiber: fiber.name, uid: fiber.uid.unwrap() },
        deliveries: deliveries(hooks_of(root.hooks, "internal/plugin"@), None),
    };
    if fiber.desired.len() == 0 && !fiber.dirty {
        assert(after.fibers[f] =~= (FiberView { uid: None, state: FiberState::Disposed, ..fiber }));
        assert(after.outbox =~= root.outbox.push(told) + Seq::<CommandView>::empty());
    } else {
        assert(after.outbox =~= root.outbox.push(told) + (order(fiber, f) + seq![
            CommandView::Settle(f),
            report(root, after.fibers[f]),
        ]));
    }
}

// ---------------------------------------------------------------------------
// The driver
// ---------------------------------------------------------------------------

/// What a driver finds when it looks at its fiber. A fiber that has loaded what
/// it desires, with no unload to make sure of, is done with. One that has
/// something else loaded unloads it. One with nothing loaded that is not to
/// run forgets the unload that it was to make sure of, and is looked at again.
/// One with nothing loaded that is to run loads: its config, as it was given,
/// goes through the listeners of `internal/config`, in their order, from the
/// context of the fiber.
pub proof fn law_driver_finds_its_work(
    root: RootView,
    event: Event,
    f: int,
    after: RootView,
    phase: PhaseView,
    action: Action,
)
    requires
        0 <= f < root.fibers.len(),
        steps(root, PhaseView::Looking, event, f, after, phase, action),
    ensures
        ({
            let fiber = root.fibers[f];
            let looked = after.fibers[f];
            let settled = fiber.desired == fiber.loaded && !fiber.force;
            &&& only_fiber(root, after, f)
            &&& settled ==> {
                &&& phase is Ended
                &&& action is End
                &&& looked == (FiberView {
                    dirty: false,
                    running: false,
                    state: looked.state,
                    ..fiber
                })
                &&& state_fits(looked)
                &&& after.outbox == root.outbox + seq![
                    CommandView::Settle(f),
                    report(root, looked),
                ]
            }
            &&& !settled && fiber.loaded.len() > 0 ==> {
                &&& phase is Disposing
                &&& looked == (FiberView { dirty: false, effects: Seq::empty(), ..fiber })
                &&& after.outbox == root.outbox.push(report(root, fiber))
            }
            &&& !settled && fiber.loaded.len() == 0 && fiber.desired.len() == 0 ==> {
                &&& phase is Looking
                &&& action is Continue
                &&& looked == (FiberView {
                    dirty: false,
                    force: false,
                    state: looked.state,
                    ..fiber
                })
                &&& state_fits(looked)
                &&& after.outbox == root.outbox
            }
            &&& !settled && fiber.loaded.len() == 0 && fiber.desired.len() > 0 && fiber.runtime
                is None ==> {
                &&& phase is Looking
                &&& action is Continue
                &&& looked == (FiberView {
                    dirty: false,
                    force: false,
                    loaded: fiber.desired,
                    ..fiber
                })
                &&& after.outbox == root.outbox.push(report(root, fiber))
            }
            &&& !settled && fiber.loaded.len() == 0 && fiber.desired.len() > 0 && fiber.runtime
                is Some ==> {
                &&& phase == (PhaseView::Resolving { target: fiber.desired })
                &&& looked == (FiberView {
                    dirty: false,
                    force: false,
                    store: root.renewing(f).fibers[f].store,
                    ..fiber
                })
                &&& after.outbox == root.outbox.push(report(root, fiber))
                &&& action matches Action::Resolve { call } && passes_hooks(
                    root,
                    "internal/config"@,
                    fiber.ctx,
                    fiber.raw_config,
                    None,
                    call@,
                )
            }
        }),
{
    let fiber = root.fibers[f];
    lemma_empty(fiber.desired);
    lemma_empty(fiber.loaded);
    lemma_cached(fiber.stepped());
    if fiber.desired == fiber.loaded && !fiber.force {
        assert(after.outbox =~= root.outbox + seq![
            CommandView::Settle(f),
            report(root, after.fibers[f]),
        ]);
    }
    lemma_passes_hooks(root, "internal/config"@, fiber.ctx, fiber.raw_config, None);
    if !(fiber.desired == fiber.loaded && !fiber.force) && fiber.loaded.len() == 0
        && fiber.desired.len() > 0 && fiber.runtime is Some {
        let looked = root.with_fiber(f, fiber.stepped()).published(f);
        assert forall|name: Seq<char>| #[trigger] looked.candidate(fiber.ctx, name)
            == root.candidate(fiber.ctx, name) by {}
        assert(looked.renewing(f).fibers[f].store =~= root.renewing(f).fibers[f].store);
    }
}

/// A payload on its way through the listeners of `name`: the first of them is
/// called with it, from `ctx`, with the others left to be called in order and
/// the fallback last; without listeners the fallback gets it, or it is the
/// result where there is none.
pub open spec fn passes_hooks(
    root: RootView,
    name: Seq<char>,
    ctx: Context,
    payload: Json,
    fallback: Option<u64>,
    call: NextCallView,
) -> bool {
    let hooks = root.hooks[name];
    if root.hooks.contains_key(name) && hooks.len() > 0 {
        &&& call matches NextCallView::Listener { callback, ctx: from, payload: given, rest }
        &&& callback == hooks[0].callback
        &&& from == ctx
        &&& given == payload
        &&& rest.ctx == ctx
        &&& rest.fallback == fallback
        &&& rest.steps.len() == hooks.len() - 1
        &&& forall|i: int|
            0 <= i < rest.steps.len() ==> #[trigger] rest.steps[i] == hooks[i + 1].callback
    } else {
        match fallback {
            Some(last) => call == (NextCallView::Fallback { fallback: last, payload }),
            None => call == NextCallView::Value(payload),
        }
    }
}

proof fn lemma_unfiltered(hooks: Seq<Hook>)
    ensures
        deliveries(hooks, None).len() == hooks.len(),
        forall|i: int|
            0 <= i < hooks.len() ==> #[trigger] deliveries(hooks, None)[i] == (Delivery {
                ctx: hooks[i].ctx,
                callback: hooks[i].callback,
                sync: hooks[i].sync,
            }),
    decreases hooks.len(),
{
    if hooks.len() > 0 {
        lemma_unfiltered(hooks.drop_last());
    }
}

proof fn lemma_passes_hooks(
    root: RootView,
    name: Seq<char>,
    ctx: Context,
    payload: Json,
    fallback: Option<u64>,
)
    ensures
        passes_hooks(
            root,
            name,
            ctx,
            payload,
            fallback,
            root.chain(name, fallback, ctx).run(payload),
        ),
{
    lemma_unfiltered(hooks_of(root.hooks, name));
}

/// A dispatch that composes its listeners calls every listener of the event in
/// order, each from the dispatching context, and the fallback last.
pub proof fn law_chain_is_all_listeners(
    root: RootView,
    name: Seq<char>,
    ctx: Context,
    payload: Json,
    fallback: Option<u64>,
)
    ensures
        passes_hooks(
            root,
            name,
            ctx,
            payload,
            fallback,
            root.chain(name, fallback, ctx).run(payload),
        ),
{
    lemma_passes_hooks(root, name, ctx, payload, fallback);
}

/// An update goes through the listeners of `internal/update`, from the context
/// of its fiber, before it is applied.
pub proof fn law_update_passes_its_hooks(root: RootView, f: int, config: Json, fallback: u64)
    requires
        0 <= f < root.fibers.len(),
    ensures
        passes_hooks(
            root,
            "internal/update"@,
            root.fibers[f].ctx,
            config,
            Some(fallback),
            root.update_chain(f, fallback).run(config),
        ),
{
    lemma_passes_hooks(
        root,
        "internal/update"@,
        root.fibers[f].ctx,
        config,
        Some(fallback),
    );
}

/// What comes of the config. A resolved config is what the plugin body runs
/// with, and the fiber keeps it; an error is a failed startup.
pub proof fn law_config_is_applied_or_fails(
    root: RootView,
    target: Seq<char>,
    event: Event,
    f: int,
    after: RootView,
    phase: PhaseView,
    action: Action,
)
    requires
        0 <= f < root.fibers.len(),
        steps(root, PhaseView::Resolving { target }, event, f, after, phase, action),
    ensures
        event matches Event::Resolved(Ok(config)) ==> {
            &&& only_fiber(root, after, f)
            &&& after.fibers[f] == (FiberView { config, ..root.fibers[f] })
            &&& after.outbox == root.outbox
            &&& phase == (PhaseView::Applying { target })
            &&& action == (Action::Apply { config })
        },
        event matches Event::Resolved(Err(error)) ==> {
            &&& fails(root, after, f, error)
            &&& phase is Looking
            &&& action is Continue
        },
        event is Resolved,
{
    if let Event::Resolved(Err(error)) = event {
        lemma_failed(root, f, error);
    }
}

proof fn lemma_failed(root: RootView, f: int, error: Error)
    requires
        0 <= f < root.fibers.len(),
    ensures
        fails(root, root.load_failed(f, error), f, error),
{
    let after = root.load_failed(f, error);
    let fiber = after.fibers[f];
    lemma_cached(root.fibers[f].failed_with(error.deep()));
    assert(after.outbox =~= root.outbox + seq![
        CommandView::Log {
            ctx: fiber.ctx,
            level: LogLevel::Error,
            topic: "fiber"@,
            code: error.code_text(),
            message: fiber.name + ": "@ + error.text(),
        },
        CommandView::Settle(f),
        report(root, fiber),
    ]);
}

/// A failed startup is recorded the same way wherever it failed.
pub proof fn law_failure_is_recorded(root: RootView, f: int, error: Error)
    requires
        0 <= f < root.fibers.len(),
    ensures
        fails(root, root.load_failed(f, error), f, error),
{
    lemma_failed(root, f, error);
}

/// The end of an unload: nothing is loaded any more, an unload that was to be made
/// sure of has been honoured, and the snapshots go with a fiber that is not to
/// run; they stay with one that is. Waiters and observers hear of it.
pub proof fn law_unload_is_recorded(root: RootView, f: int, forced: bool)
    requires
        0 <= f < root.fibers.len(),
    ensures
        ({
            let fiber = root.fibers[f];
            let after = root.unload_finished(f, forced);
            let unloaded = after.fibers[f];
            &&& only_fiber(root, after, f)
            &&& unloaded == (FiberView {
                loaded: Seq::empty(),
                force: fiber.force && !forced,
                store: if fiber.desired.len() == 0 {
                    Map::empty()
                } else {
                    fiber.store
                },
                state: unloaded.state,
                ..fiber
            })
            &&& state_fits(unloaded)
            &&& after.outbox == root.outbox + seq![
                CommandView::Settle(f),
                report(root, unloaded),
            ]
        }),
{
    let fiber = root.fibers[f];
    let after = root.unload_finished(f, forced);
    lemma_empty(fiber.desired);
    lemma_cached(fiber.unloaded(forced));
    assert(after.outbox =~= root.outbox + seq![
        CommandView::Settle(f),
        report(root, after.fibers[f]),
    ]);
}

/// A plugin body that completed leaves its fiber loaded with the epoch that it
/// was started for, without an error, and active unless it has been asked for
/// something else meanwhile. Then every service that the fiber provides is
/// told of, each scope by itself, and no other.
pub proof fn law_completed_body_is_loaded(
    root: RootView,
    target: Seq<char>,
    event: Event,
    f: int,
    after: RootView,
    phase: PhaseView,
    action: Action,
    name: Seq<char>,
    label: u64,
)
    requires
        0 <= f < root.fibers.len(),
        event matches Event::Applied(Ok(_)),
        steps(root, PhaseView::Applying { target }, event, f, after, phase, action),
    ensures
        ({
            let fiber = root.fibers[f];
            let loaded = after.fibers[f];
            &&& only_fiber(root, after, f)
            &&& loaded == (FiberView {
                error: None,
                loaded: target,
                state: loaded.state,
                ..fiber
            })
            &&& state_fits(loaded)
            &&& fiber.uid is Some && fiber.desired == target && !fiber.dirty && target.len() > 0
                ==> loaded.state == FiberState::Active
            &&& after.outbox == root.outbox
            &&& action is Continue
        }),
        phase matches PhaseView::Broadcasting { services } && (services.contains((name, label))
            <==> root.services.contains_key((name, label)) && root.fibers[f].uid == Some(
            root.services[(name, label)].provider_uid,
        )) && services.no_duplicates(),
{
    lemma_cached(root.fibers[f].loaded_with(target));
    let uid = root.fibers[f].uid.unwrap();
    assert(provides(root.services, uid, (name, label)) == (root.services.contains_key((name, label))
        && root.services[(name, label)].provider_uid == uid));
}

/// A driver that has services to tell of asks about the first of them, from the
/// context of its fiber, and then goes on with the others; when none is left,
/// waiters and observers hear that the fiber has loaded.
pub proof fn law_driver_tells_of_its_services(
    root: RootView,
    services: Seq<(Seq<char>, u64)>,
    event: Event,
    f: int,
    after: RootView,
    phase: PhaseView,
    action: Action,
)
    requires
        0 <= f < root.fibers.len(),
        steps(root, PhaseView::Broadcasting { services }, event, f, after, phase, action),
    ensures
        services.len() > 0 ==> {
            &&& after == root
            &&& action is Ask
            &&& phase == (PhaseView::Telling {
                notice: root.notice_at(root.fibers[f].ctx, services[0].0, services[0].1),
                services: services.skip(1),
            })
        },
        services.len() == 0 ==> {
            &&& only_fiber(root, after, f)
            &&& after.fibers[f] == root.fibers[f]
            &&& after.outbox == root.outbox + seq![
                CommandView::Settle(f),
                report(root, root.fibers[f]),
            ]
            &&& phase is Looking
            &&& action is Continue
        },
{
    if services.len() > 0 {
        assert(services.skip(1) =~= services.drop_first());
    } else {
        assert(after.outbox =~= root.outbox + seq![
            CommandView::Settle(f),
            report(root, root.fibers[f]),
        ]);
    }
}

/// The answers that a driver is given are applied to the notice that it asked
/// for, and then it goes on where it was: with the disposers that are left, or
/// with the services that are left. A disposer that has been seen to wakes the
/// waiters.
pub proof fn law_driver_applies_the_answers(
    root: RootView,
    phase: PhaseView,
    event: Event,
    f: int,
    after: RootView,
    next: PhaseView,
    action: Action,
)
    requires
        steps(root, phase, event, f, after, next, action),
    ensures
        phase matches PhaseView::Withdrawing { notice, left, after: follows } ==> {
            &&& event matches Event::Verdicts(verdicts)
            &&& after == (RootView {
                outbox: root.notified(notice, verdicts@).outbox.push(CommandView::Settle(f)),
                ..root.notified(notice, verdicts@)
            })
            &&& next == (PhaseView::Disposing { left, after: follows })
            &&& action is Continue
        },
        phase matches PhaseView::Telling { notice, services } ==> {
            &&& event matches Event::Verdicts(verdicts)
            &&& after == root.notified(notice, verdicts@)
            &&& next == (PhaseView::Broadcasting { services })
            &&& action is Continue
        },
        phase matches PhaseView::Cleaning { left, after: follows } ==> {
            &&& after == (RootView { outbox: root.outbox.push(CommandView::Settle(f)), ..root })
            &&& next == (PhaseView::Disposing { left, after: follows })
            &&& action is Continue
        },
        phase is Ended ==> after == root && next is Ended && action is End,
{
}

/// The end of a change being made known: whoever listens to `internal/service`
/// and is global or resolves the name to the label of the change hears of it,
/// from the context that made it known.
pub proof fn law_change_is_announced_in_its_scope(
    root: RootView,
    notice: NoticeView,
    verdicts: Seq<bool>,
)
    ensures
        ({
            let after = root.notified(notice, verdicts);
            let hooks = if after.hooks.contains_key("internal/service"@) {
                after.hooks["internal/service"@]
            } else {
                Seq::empty()
            };
            &&& after.outbox.len() > 0
            &&& after.outbox.last() == (CommandView::Emit {
                ctx: notice.ctx,
                event: InternalEventView::Service { service: notice.name },
                deliveries: deliveries(hooks, Some((notice.name, notice.label))),
            })
        }),
{
}

} // verus!
