//! What the state is spoken of as is what it is: every field shows, and lists
//! show item by item.

use vstd::prelude::*;

use crate::dispatch::{Next, NextCall, NextCallView};
use crate::drive::{DriveAction, DriveActionView};
use crate::driver::{Phase, PhaseView};
use crate::effects::{Undo, UndoView};
use crate::error::{errors_deep, Error};
use crate::events::{filter_view, EventStore, ScopeFilter};
use crate::fiber::{
    disposers_view, mirrored_state, slot_view, Disposer, DisposerView, Effect, Fiber, FiberState,
};
use crate::lifecycle::{DriveStep, DriveStepView};
use crate::plugin::{
    injections_view, plain_injection, required_names, service_names, Injection, InjectionView,
};
use crate::resolve::{probes_view, Notice, Probe};
use crate::root::{
    Command, CommandView, InternalEvent, InternalEventView, RootState, Runtime,
};
use crate::service::{keys_view, ReflectStore};
use crate::text::texts;

verus! {

/// Every field of a fiber shows, the mirrored state by its byte.
pub proof fn law_fiber_shows_its_fields(fiber: Fiber, i: int)
    ensures
        fiber@.uid == fiber.uid,
        fiber@.runtime == fiber.runtime,
        fiber@.name == fiber.name@,
        fiber@.inject.len() == fiber.inject@.len(),
        0 <= i < fiber.inject@.len() ==> fiber@.inject[i] == fiber.inject@[i].service@,
        fiber@.ctx == fiber.ctx,
        fiber@.raw_config == fiber.raw_config,
        fiber@.config == fiber.config,
        fiber.error is None <==> fiber@.error is None,
        fiber.error matches Some(error) ==> fiber@.error == Some(error.deep()),
        fiber@.store == fiber.store@,
        fiber@.loaded == fiber.loaded@,
        fiber@.effects.len() == fiber.disposables@.len(),
        0 <= i < fiber.disposables@.len() ==> fiber@.effects[i] == slot_view(fiber.disposables@[i]),
        fiber@.next_effect_id == fiber.next_effect_id,
        fiber@.desired == fiber.driver.desired@,
        fiber@.dirty == fiber.driver.dirty,
        fiber@.force == fiber.driver.force,
        fiber@.running == fiber.driver.running,
        fiber@.state == mirrored_state(fiber.state_cache),
{
}

/// Every byte of the mirror stands for the state that it was written for; no
/// two states share one.
pub proof fn law_mirror_tells_states_apart(a: FiberState, b: FiberState)
    ensures
        mirrored_state(a.code()) == a,
        a.code() == b.code() <==> a == b,
{
}

/// A live effect shows its id, its label and what undoes it; an empty slot shows
/// as one.
pub proof fn law_effect_shows_its_fields(effect: Effect, disposer: Disposer)
    ensures
        slot_view(None) is None,
        slot_view(Some(effect)) matches Some(shown) && shown.id == effect.id && shown.label
            == effect.label@ && shown.disposer == effect.disposer@,
        match disposer {
            Disposer::Withdraw { ctx, name } => disposer@ == (DisposerView::Withdraw {
                ctx,
                name: name@,
            }),
            Disposer::Unhook { event, callback } => disposer@ == (DisposerView::Unhook {
                event: event@,
                callback,
            }),
            Disposer::Task(task) => disposer@ == DisposerView::Task(task),
        },
{
}

/// Every part of a root shows: fibers and what is left to do item by item,
/// plugins by their key.
pub proof fn law_root_shows_its_parts(root: RootState, i: int, key: u64)
    ensures
        root@.id == root.id,
        root@.services == root.reflect@,
        root@.hooks == root.events@,
        root@.fibers.len() == root.fibers@.len(),
        0 <= i < root.fibers@.len() ==> root@.fibers[i] == root.fibers@[i]@,
        root@.outbox.len() == root.outbox@.len(),
        0 <= i < root.outbox@.len() ==> root@.outbox[i] == root.outbox@[i]@,
        root@.label_seed == root.label_seed,
        root@.scope_seed == root.scope_seed,
        root@.registry.contains_key(key) <==> root.registry@.contains_key(key),
        root.registry@.contains_key(key) ==> root@.registry[key].name
            == root.registry@[key].name@ && root@.registry[key].fibers
            == root.registry@[key].fibers@,
{
}

/// The store of services shows every entry under its name and label.
pub proof fn law_store_shows_its_entries(store: ReflectStore, i: int)
    requires
        store.wf(),
        0 <= i < store.entries@.len(),
    ensures
        store@.contains_key((store.entries@[i].name@, store.entries@[i].label)),
        store@[(store.entries@[i].name@, store.entries@[i].label)] == store.entries@[i].service,
{
    store.lemma_entry(i);
}

/// The store of listeners shows every list under the name of its event.
pub proof fn law_listeners_show_by_event(store: EventStore, i: int)
    requires
        store.wf(),
        0 <= i < store.hooks.entries@.len(),
    ensures
        store@.contains_key(store.hooks.entries@[i].0@),
        store@[store.hooks.entries@[i].0@] == store.hooks.entries@[i].1@,
{
    store.hooks.lemma_entry(i);
}

/// What is left to do shows with all that it takes to do it.
pub proof fn law_command_shows_what_to_do(command: Command, event: InternalEvent)
    ensures
        match command {
            Command::Drive(fiber) => command@ == CommandView::Drive(fiber as int),
            Command::Settle(fiber) => command@ == CommandView::Settle(fiber as int),
            Command::Emit { ctx, event, deliveries } => command@ == (CommandView::Emit {
                ctx,
                event: event@,
                deliveries: deliveries@,
            }),
            Command::Log { ctx, level, topic, code, message } => {
                &&& command@ matches CommandView::Log {
                    ctx: shown_ctx,
                    level: shown_level,
                    topic: shown_topic,
                    code: shown_code,
                    message: shown_message,
                }
                &&& shown_ctx == ctx
                &&& shown_level == level
                &&& shown_topic == topic@
                &&& shown_message == message@
                &&& code is None <==> shown_code is None
                &&& code is Some ==> shown_code == Some(code.unwrap()@)
            },
        },
        match event {
            InternalEvent::Status { fiber, uid, state } => event@ == (InternalEventView::Status {
                fiber: fiber@,
                uid,
                state,
            }),
            InternalEvent::PluginCreated { fiber, uid, inject } => event@ == (
            InternalEventView::PluginCreated { fiber: fiber@, uid, inject: texts(inject@) }),
            InternalEvent::PluginDisposed { fiber, uid } => event@ == (
            InternalEventView::PluginDisposed { fiber: fiber@, uid }),
            InternalEvent::Service { service } => event@ == (InternalEventView::Service {
                service: service@,
            }),
        },
{
}

/// Questions and notices show with all that they carry.
pub proof fn law_notice_shows_its_fields(notice: Notice, probe: Probe)
    ensures
        probe@.fiber == probe.fiber,
        probe@.name == probe.name@,
        probe@.candidate == probe.candidate,
        notice@.ctx == notice.ctx,
        notice@.name == notice.name@,
        notice@.label == notice.label,
        notice@.fibers == notice.fibers@,
        notice@.probes == probes_view(notice.probes@),
{
}

/// Where a driver stands shows with all that it still has before it.
pub proof fn law_phase_shows_what_is_left(phase: Phase)
    ensures
        match phase {
            Phase::Looking => phase@ is Looking,
            Phase::Disposing { left, after } => phase@ == (PhaseView::Disposing {
                left: disposers_view(left@),
                after,
            }),
            Phase::Cleaning { left, after } => phase@ == (PhaseView::Cleaning {
                left: disposers_view(left@),
                after,
            }),
            Phase::Withdrawing { notice, left, after } => phase@ == (PhaseView::Withdrawing {
                notice: notice@,
                left: disposers_view(left@),
                after,
            }),
            Phase::Resolving { target } => phase@ == (PhaseView::Resolving { target: target@ }),
            Phase::Applying { target } => phase@ == (PhaseView::Applying { target: target@ }),
            Phase::Broadcasting { services } => phase@ == (PhaseView::Broadcasting {
                services: keys_view(services@),
            }),
            Phase::Telling { notice, services } => phase@ == (PhaseView::Telling {
                notice: notice@,
                services: keys_view(services@),
            }),
            Phase::Ended => phase@ is Ended,
        },
{
}

/// What a driver has to do, and what is left of a disposer, show as they are.
pub proof fn law_work_shows_as_it_is(step: DriveStep, action: DriveAction, undo: Undo)
    ensures
        match step {
            DriveStep::Settle => step@ is Settle,
            DriveStep::Unload { forced } => step@ == (DriveStepView::Unload { forced }),
            DriveStep::Park => step@ is Park,
            DriveStep::Load { target } => step@ == (DriveStepView::Load { target: target@ }),
        },
        match action {
            DriveAction::Done => action@ is Done,
            DriveAction::Unload { forced, disposers } => action@ == (DriveActionView::Unload {
                forced,
                disposers: disposers_view(disposers@),
            }),
            DriveAction::Again => action@ is Again,
            DriveAction::Load { target } => action@ == (DriveActionView::Load { target: target@ }),
        },
        match undo {
            Undo::Done => undo@ is Done,
            Undo::Notify(notice) => undo@ == UndoView::Notify(notice@),
            Undo::Task(task) => undo@ == UndoView::Task(task),
        },
{
}

/// A chain shows its steps, its fallback and its context; a continuation all
/// that it hands on.
pub proof fn law_chain_shows_its_steps(next: Next, call: NextCall)
    ensures
        next@.steps == next.steps@,
        next@.fallback == next.fallback,
        next@.ctx == next.ctx,
        match call {
            NextCall::Listener { callback, ctx, payload, rest } => call@ == (
            NextCallView::Listener { callback, ctx, payload, rest: rest@ }),
            NextCall::Fallback { fallback, payload } => call@ == (NextCallView::Fallback {
                fallback,
                payload,
            }),
            NextCall::Value(payload) => call@ == NextCallView::Value(payload),
        },
{
}

/// A filter shows its name and its label, whatever they are.
pub proof fn law_filter_shows_name_and_label(filter: ScopeFilter)
    ensures
        filter_view(Some(filter)) == Some((filter.name@, filter.label)),
        filter_view(None) is None,
{
}

/// Lists show item by item, in order.
pub proof fn law_lists_show_item_by_item(
    strings: Seq<String>,
    errors: Seq<Error>,
    disposers: Seq<Disposer>,
    probes: Seq<Probe>,
    keys: Seq<(String, u64)>,
    injections: Seq<Injection>,
    declared: Seq<InjectionView>,
    runtime: Runtime,
    i: int,
)
    ensures
        texts(strings).len() == strings.len(),
        0 <= i < strings.len() ==> texts(strings)[i] == strings[i]@,
        errors_deep(errors).len() == errors.len(),
        0 <= i < errors.len() ==> errors_deep(errors)[i] == errors[i].deep(),
        disposers_view(disposers).len() == disposers.len(),
        0 <= i < disposers.len() ==> disposers_view(disposers)[i] == disposers[i]@,
        probes_view(probes).len() == probes.len(),
        0 <= i < probes.len() ==> probes_view(probes)[i] == probes[i]@,
        keys_view(keys).len() == keys.len(),
        0 <= i < keys.len() ==> keys_view(keys)[i] == (keys[i].0@, keys[i].1),
        injections_view(injections).len() == injections.len(),
        0 <= i < injections.len() ==> injections_view(injections)[i].service
            == injections[i].service@ && injections_view(injections)[i].config
            == injections[i].config,
        service_names(injections).len() == injections.len(),
        0 <= i < injections.len() ==> service_names(injections)[i] == injections[i].service@,
        required_names(declared).len() == declared.len(),
        0 <= i < declared.len() ==> required_names(declared)[i] == declared[i].service,
        forall|service: Seq<char>| #[trigger]
            plain_injection(service).service == service && plain_injection(service).config is None,
        runtime@.name == runtime.name@,
        runtime@.fibers == runtime.fibers@,
{
}

} // verus!
