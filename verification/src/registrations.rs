//! What it takes to register something with a fiber, and what is there then.

use vstd::prelude::*;

use crate::context::{Context, DEFAULT_LABEL};
use crate::effects::{listens, registers, EffectGuard, Registered};
use crate::error::{CordisCode, Error};
use crate::events::{deliveries, hooks_of, Hook};
use crate::fiber::{
    effect_at, law_next_id_is_free, DisposerView, EffectView, FiberState, FiberView,
    ProviderSnapshot,
};
use crate::json::Json;
use crate::plugin::InjectionView;
use crate::registry::{detached, without};
use crate::resolve::set_refusal;
use crate::root::{fresh_root, CommandView, InternalEventView, RootView, RuntimeView};
use crate::scope::layer_count;
use crate::service::ServiceImpl;
use crate::timer::arms;

verus! {

// ---------------------------------------------------------------------------
// Effects
// ---------------------------------------------------------------------------

/// The fiber got one more effect, the newest, under the id that was next; ids
/// go on by one as long as the next number is free. Nothing else about the
/// fiber changes.
pub open spec fn gains_effect(
    before: FiberView,
    after: FiberView,
    label: Seq<char>,
    disposer: DisposerView,
) -> bool {
    let next = (before.next_effect_id + 1) as u64;
    let free = forall|i: int|
        0 <= i < before.effects.len() ==> ((#[trigger] before.effects[i]) matches Some(effect)
            ==> effect.id != next);
    &&& after == (FiberView {
        effects: before.effects.push(
            Some(EffectView { id: before.next_effect_id, label, disposer }),
        ),
        next_effect_id: after.next_effect_id,
        ..before
    })
    &&& before.next_effect_id < u64::MAX && free ==> after.next_effect_id == next
}

proof fn lemma_gains(before: FiberView, label: Seq<char>, disposer: DisposerView)
    ensures
        gains_effect(before, before.with_effect(label, Some(disposer)), label, disposer),
{
    let next = (before.next_effect_id + 1) as u64;
    let after = before.with_effect(label, Some(disposer));
    if before.next_effect_id < u64::MAX && forall|i: int|
        0 <= i < before.effects.len() ==> ((#[trigger] before.effects[i]) matches Some(effect)
            ==> effect.id != next) {
        assert forall|i: int| !#[trigger] effect_at(after.effects, i, next) by {
            if 0 <= i < before.effects.len() {
                assert(after.effects[i] == before.effects[i]);
            }
        }
    }
}

/// One effect of `f`: it is its newest, under the id that was next. Without
/// anything to undo only the id is used up.
pub proof fn law_effect_is_registered(
    root: RootView,
    f: int,
    label: Seq<char>,
    disposer: DisposerView,
)
    requires
        0 <= f < root.fibers.len(),
    ensures
        gains_effect(
            root.fibers[f],
            root.with_effect(f, label, Some(disposer)).fibers[f],
            label,
            disposer,
        ),
        root.with_effect(f, label, None).fibers[f] == (FiberView {
            next_effect_id: root.with_effect(f, label, None).fibers[f].next_effect_id,
            ..root.fibers[f]
        }),
        root.fibers[f].next_effect_id < u64::MAX && (forall|i: int|
            0 <= i < root.fibers[f].effects.len() ==> ((
            #[trigger] root.fibers[f].effects[i]) matches Some(effect) ==> effect.id
                != root.fibers[f].next_effect_id + 1)) ==> root.with_effect(
            f,
            label,
            None,
        ).fibers[f].next_effect_id == root.fibers[f].next_effect_id + 1,
        forall|what: Option<DisposerView>|
            #![trigger root.with_effect(f, label, what)]
            root.with_effect(f, label, what) == (RootView {
                fibers: root.with_effect(f, label, what).fibers,
                ..root
            }),
        forall|what: Option<DisposerView>, g: int|
            #![trigger root.with_effect(f, label, what).fibers[g]]
            0 <= g < root.fibers.len() && g != f ==> root.with_effect(f, label, what).fibers[g]
                == root.fibers[g],
{
    lemma_gains(root.fibers[f], label, disposer);
    let fiber = root.fibers[f];
    if fiber.next_effect_id < u64::MAX && forall|i: int|
        0 <= i < fiber.effects.len() ==> ((#[trigger] fiber.effects[i]) matches Some(effect)
            ==> effect.id != fiber.next_effect_id + 1) {
        let next = (fiber.next_effect_id + 1) as u64;
        law_next_id_is_free(fiber.effects, fiber.next_effect_id, next);
    }
}

/// Effects are refused to a context without a fiber, and to a fiber that is
/// disposed of or unloading. To no other: a fiber that is pending, loading,
/// active or failed may have them.
pub proof fn law_when_effects_are_refused(root: RootView, ctx: Context)
    ensures
        root.effect_refusal(ctx) is None <==> (ctx.fiber matches Some(f)
            && root.fibers[f as int].uid is Some && root.fibers[f as int].state
            != FiberState::Unloading && root.fibers[f as int].state != FiberState::Disposed),
{
}

/// The error for creating an effect is the one for its reason: a context without
/// a fiber is told so, with the operation; an inactive fiber by its code.
pub open spec fn refuses_effect(
    root: RootView,
    ctx: Context,
    op: Seq<char>,
    error: Error,
) -> bool {
    match ctx.fiber {
        None => error is Other && error.text() == "cannot "@ + op
            + " on this context: no active fiber is bound"@,
        Some(f) => {
            let fiber = root.fibers[f as int];
            &&& fiber.uid is None || fiber.state == FiberState::Unloading || fiber.state
                == FiberState::Disposed
            &&& error matches Error::Coded(e) && e.code == CordisCode::InactiveEffect && e.message@
                == "cannot create effect on inactive context"@
        },
    }
}

// ---------------------------------------------------------------------------
// Services
// ---------------------------------------------------------------------------

/// Providing a service is refused to a context without a fiber and to a disposed
/// fiber; in a scope that has the service already, whoever provides it and
/// whether it is active or not; and to a fiber that is unloading. Nothing has
/// changed then. Else the service is there in the scope of the context, by the
/// fiber of the context, with the value, predicate and producer that were
/// given; the fiber has one more effect, which withdraws it; and whoever
/// depends on it is to be told.
pub proof fn law_provide_registers_or_refuses(
    before: RootView,
    after: RootView,
    ctx: Context,
    op: Seq<char>,
    name: Seq<char>,
    service: ServiceImpl,
    outcome: Result<Registered, Error>,
)
    requires
        registers(before, after, ctx, op, name, service, outcome),
        ctx.fiber matches Some(f) ==> f < before.fibers.len(),
    ensures
        ({
            let f = ctx.fiber.unwrap() as int;
            let fiber = before.fibers[f];
            let key = (name, ctx.label_of(name));
            let disposed = ctx.fiber is Some && fiber.uid is None;
            let taken = ctx.fiber is Some && fiber.uid is Some && before.services.contains_key(key);
            let refused = ctx.fiber is None || disposed || taken || fiber.state
                == FiberState::Unloading || fiber.state == FiberState::Disposed;
            &&& refused ==> outcome is Err && after == before
            &&& refused && !taken ==> refuses_effect(before, ctx, op, outcome->Err_0)
            &&& taken ==> (outcome matches Err(Error::Coded(e)) && e.code
                == CordisCode::DuplicateService && e.message@ == "service \""@ + name
                + "\" has been registered in this scope"@)
            &&& !refused ==> {
                &&& outcome matches Ok(registered)
                &&& registered.guard == (EffectGuard {
                    fiber: ctx.fiber.unwrap(),
                    id: fiber.next_effect_id,
                })
                &&& registered.notice@ == after.notice_at(ctx, name, ctx.label_of(name))
                &&& after.services == before.services.insert(
                    key,
                    ServiceImpl {
                        value: service.value,
                        provider_uid: fiber.uid.unwrap(),
                        check: service.check,
                        compute: service.compute,
                    },
                )
                &&& gains_effect(
                    fiber,
                    after.fibers[f],
                    "ctx."@ + op + "("@ + name + ")"@,
                    DisposerView::Withdraw { ctx, name },
                )
                &&& after == (RootView {
                    services: after.services,
                    fibers: after.fibers,
                    ..before
                })
                &&& after.fibers.len() == before.fibers.len()
                &&& forall|g: int|
                    0 <= g < before.fibers.len() && g != f ==> #[trigger] after.fibers[g]
                        == before.fibers[g]
            }
        }),
{
    if ctx.fiber is Some {
        lemma_gains(
            before.fibers[ctx.fiber.unwrap() as int],
            "ctx."@ + op + "("@ + name + ")"@,
            DisposerView::Withdraw { ctx, name },
        );
    }
}

/// A service can be overwritten by the fiber that provides it, as long as that
/// is not disposed of, and by no other.
pub proof fn law_who_may_overwrite(root: RootView, ctx: Context, name: Seq<char>)
    ensures
        ({
            let key = (name, ctx.label_of(name));
            let uid = root.fibers[ctx.fiber.unwrap() as int].uid;
            &&& ctx.fiber is None || uid is None ==> set_refusal(root, ctx, name) == Some(
                Some(CordisCode::InactiveEffect),
            )
            &&& ctx.fiber is Some && uid is Some && !root.services.contains_key(key)
                ==> set_refusal(root, ctx, name) == Some(None::<CordisCode>)
            &&& ctx.fiber is Some && uid is Some && root.services.contains_key(key) ==> {
                &&& root.services[key].provider_uid == uid.unwrap() ==> set_refusal(
                    root,
                    ctx,
                    name,
                ) is None
                &&& root.services[key].provider_uid != uid.unwrap() ==> set_refusal(
                    root,
                    ctx,
                    name,
                ) == Some(Some(CordisCode::ForeignService))
                &&& root.visible(ctx, name) == Some(root.services[key])
            }
        }),
{
}

// ---------------------------------------------------------------------------
// Listeners
// ---------------------------------------------------------------------------

/// Adding a listener is refused where effects are, with nothing changed. Else
/// the event has this one more, first if it asks to be prepended and last if
/// it does not; every other event has the listeners that it had; and the
/// fiber of its context has one more effect, which removes it.
pub proof fn law_listener_is_added_or_refused(
    before: RootView,
    after: RootView,
    name: Seq<char>,
    hook: Hook,
    outcome: Result<EffectGuard, Error>,
    other: Seq<char>,
)
    requires
        listens(before, after, name, hook, outcome),
        hook.ctx.fiber matches Some(f) ==> f < before.fibers.len(),
    ensures
        ({
            let f = hook.ctx.fiber.unwrap() as int;
            let fiber = before.fibers[f];
            let refused = hook.ctx.fiber is None || fiber.uid is None || fiber.state
                == FiberState::Unloading || fiber.state == FiberState::Disposed;
            let had = if before.hooks.contains_key(name) {
                before.hooks[name]
            } else {
                Seq::empty()
            };
            &&& refused ==> after == before && outcome is Err && refuses_effect(
                before,
                hook.ctx,
                "effect"@,
                outcome->Err_0,
            )
            &&& !refused ==> {
                &&& outcome == Ok::<EffectGuard, Error>(
                    EffectGuard { fiber: hook.ctx.fiber.unwrap(), id: fiber.next_effect_id },
                )
                &&& after.hooks.contains_key(name)
                &&& hook.prepend ==> after.hooks[name] == seq![hook] + had
                &&& !hook.prepend ==> after.hooks[name] == had + seq![hook]
                &&& other != name ==> after.hooks.contains_key(other) == before.hooks.contains_key(
                    other,
                ) && after.hooks[other] == before.hooks[other]
                &&& gains_effect(
                    fiber,
                    after.fibers[f],
                    "ctx."@ + "on"@ + "("@ + name + ")"@,
                    DisposerView::Unhook { event: name, callback: hook.callback },
                )
                &&& after == (RootView { hooks: after.hooks, fibers: after.fibers, ..before })
                &&& after.fibers.len() == before.fibers.len()
                &&& forall|g: int|
                    0 <= g < before.fibers.len() && g != f ==> #[trigger] after.fibers[g]
                        == before.fibers[g]
            }
        }),
{
    if hook.ctx.fiber is Some {
        lemma_gains(
            before.fibers[hook.ctx.fiber.unwrap() as int],
            "ctx."@ + "on"@ + "("@ + name + ")"@,
            DisposerView::Unhook { event: name, callback: hook.callback },
        );
        assert(hooks_of(before.hooks, name) + seq![hook] =~= hooks_of(before.hooks, name).push(
            hook,
        ));
    }
}

// ---------------------------------------------------------------------------
// Timers
// ---------------------------------------------------------------------------

/// A timer is an effect of the fiber of its context, which its cleanup routine
/// cancels; it is refused where effects are, with nothing changed.
pub proof fn law_timer_is_an_effect(
    before: RootView,
    after: RootView,
    scope: Context,
    label: Seq<char>,
    task: u64,
    outcome: Result<EffectGuard, Error>,
)
    requires
        arms(before, after, scope, label, task, outcome),
        scope.fiber matches Some(f) ==> f < before.fibers.len(),
    ensures
        ({
            let f = scope.fiber.unwrap() as int;
            let fiber = before.fibers[f];
            let refused = scope.fiber is None || fiber.uid is None || fiber.state
                == FiberState::Unloading || fiber.state == FiberState::Disposed;
            &&& refused ==> after == before && outcome is Err && refuses_effect(
                before,
                scope,
                "effect"@,
                outcome->Err_0,
            )
            &&& !refused ==> {
                &&& outcome == Ok::<EffectGuard, Error>(
                    EffectGuard { fiber: scope.fiber.unwrap(), id: fiber.next_effect_id },
                )
                &&& gains_effect(fiber, after.fibers[f], label, DisposerView::Task(task))
                &&& after == (RootView { fibers: after.fibers, ..before })
                &&& forall|g: int|
                    0 <= g < before.fibers.len() && g != f ==> #[trigger] after.fibers[g]
                        == before.fibers[g]
            }
        }),
{
    if scope.fiber is Some {
        lemma_gains(
            before.fibers[scope.fiber.unwrap() as int],
            label,
            DisposerView::Task(task),
        );
    }
}

// ---------------------------------------------------------------------------
// Plugins
// ---------------------------------------------------------------------------

/// A new fiber: it has the next uid, is bound to its context, requires what was
/// declared in that order, holds the config as it was given, and has neither
/// loaded nor desired, registered nor remembered anything. It is the last
/// fiber of its plugin, whose name is the one it was first started under. The
/// observers of `internal/plugin` hear of it from the context that started it.
/// No other fiber, plugin, service or listener is touched.
pub proof fn law_start_creates_a_pending_fiber(
    root: RootView,
    ctx: Context,
    bound: Context,
    key: u64,
    name: Seq<char>,
    declared: Seq<InjectionView>,
    config: Json,
    other: u64,
)
    requires
        root.fibers.len() < usize::MAX,
    ensures
        ({
            let after = root.started(ctx, bound, key, name, declared, config);
            let n = root.fibers.len() as int;
            let fiber = after.fibers[n];
            let known = root.registry.contains_key(key);
            let called = if known {
                root.registry[key].name
            } else {
                name
            };
            &&& after.fibers.len() == n + 1
            &&& forall|g: int| 0 <= g < n ==> #[trigger] after.fibers[g] == root.fibers[g]
            &&& fiber.uid == Some(n as u64)
            &&& fiber.runtime == Some(key)
            &&& fiber.name == called
            &&& fiber.ctx == bound
            &&& fiber.inject.len() == declared.len()
            &&& forall|j: int|
                0 <= j < declared.len() ==> #[trigger] fiber.inject[j] == declared[j].service
            &&& fiber.raw_config == config
            &&& fiber.config == Json::Null
            &&& fiber.error is None
            &&& fiber.store == Map::<Seq<char>, ProviderSnapshot>::empty()
            &&& fiber.loaded.len() == 0
            &&& fiber.desired.len() == 0
            &&& fiber.effects.len() == 0
            &&& fiber.next_effect_id == 1
            &&& !fiber.dirty && !fiber.force && !fiber.running
            &&& fiber.state == FiberState::Pending
            &&& after.registry.contains_key(key)
            &&& after.registry[key].name == called
            &&& known ==> after.registry[key].fibers == root.registry[key].fibers.push(n as usize)
            &&& !known ==> after.registry[key].fibers == seq![n as usize]
            &&& other != key ==> after.registry.contains_key(other) == root.registry.contains_key(
                other,
            ) && after.registry[other] == root.registry[other]
            &&& after.services == root.services
            &&& after.hooks == root.hooks
            &&& after.id == root.id
            &&& after.label_seed == root.label_seed
            &&& after.scope_seed == (root.scope_seed + layer_count(declared)) as u64
            &&& after.outbox == root.outbox.push(
                CommandView::Emit {
                    ctx,
                    event: InternalEventView::PluginCreated {
                        fiber: called,
                        uid: n as u64,
                        inject: fiber.inject,
                    },
                    deliveries: deliveries(hooks_of(root.hooks, "internal/plugin"@), None),
                },
            )
        }),
{
}

/// Taking a fiber out of the registry leaves the other fibers of its plugin in
/// their order and every other plugin as it was; a plugin whose only fiber it
/// was goes.
pub proof fn law_detaching_removes_one_fiber(
    registry: Map<u64, RuntimeView>,
    key: u64,
    earlier: Seq<usize>,
    f: usize,
    later: Seq<usize>,
    other: u64,
)
    requires
        registry.contains_key(key),
        registry[key].fibers == earlier + seq![f] + later,
        !earlier.contains(f),
        !later.contains(f),
    ensures
        ({
            let after = detached(registry, key, f);
            &&& earlier.len() + later.len() == 0 ==> after == registry.remove(key)
            &&& earlier.len() + later.len() > 0 ==> after.contains_key(key) && after[key]
                == (RuntimeView { name: registry[key].name, fibers: earlier + later })
            &&& other != key ==> after.contains_key(other) == registry.contains_key(other)
                && after[other] == registry[other]
        }),
{
    lemma_without_absent(earlier, f);
    lemma_without_absent(later, f);
    lemma_without_joined(earlier + seq![f], later, f);
    lemma_without_joined(earlier, seq![f], f);
    assert(seq![f].drop_last() =~= Seq::empty());
    assert(without(seq![f], f) =~= Seq::empty()) by {
        reveal_with_fuel(without, 2);
    }
    assert(earlier + Seq::<usize>::empty() + later =~= earlier + later);
}

proof fn lemma_without_absent(list: Seq<usize>, f: usize)
    requires
        !list.contains(f),
    ensures
        without(list, f) == list,
    decreases list.len(),
{
    if list.len() > 0 {
        let rest = list.drop_last();
        assert(!rest.contains(f)) by {
            if rest.contains(f) {
                let i = choose|i: int| 0 <= i < rest.len() && rest[i] == f;
                assert(list[i] == f);
            }
        }
        assert(list[list.len() - 1] != f);
        lemma_without_absent(rest, f);
        assert(rest.push(list.last()) =~= list);
    }
}

proof fn lemma_without_joined(a: Seq<usize>, b: Seq<usize>, f: usize)
    ensures
        without(a + b, f) == without(a, f) + without(b, f),
    decreases b.len(),
{
    if b.len() == 0 {
        assert(a + b =~= a);
        assert(without(a, f) + without(b, f) =~= without(a, f));
    } else {
        assert((a + b).drop_last() =~= a + b.drop_last());
        lemma_without_joined(a, b.drop_last(), f);
        assert(without(a + b, f) =~= without(a, f) + without(b, f));
    }
}

/// Disposing of a plugin fiber takes it out of the registry, and disposing of
/// any other fiber leaves the registry alone.
pub proof fn law_disposal_detaches(root: RootView, f: int)
    requires
        0 <= f < root.fibers.len(),
    ensures
        root.fibers[f].runtime matches Some(key) ==> root.disposed(f).registry == detached(
            root.registry,
            key,
            f as usize,
        ),
        root.fibers[f].runtime is None ==> root.disposed(f).registry == root.registry,
{
}

/// A root to begin with: one fiber, the root fiber, which is active, requires
/// nothing and runs no plugin; one service, the logger, provided by it in the
/// default scope; no plugin, no listener, and nothing left to do.
pub proof fn law_fresh_root(id: u64, logger: u64, ctx: Context, key: (Seq<char>, u64))
    ensures
        ({
            let root = fresh_root(id, logger, ctx);
            let fiber = root.fibers[0];
            &&& root.id == id
            &&& root.fibers.len() == 1
            &&& fiber.uid == Some(0u64)
            &&& fiber.runtime is None
            &&& fiber.name == "root"@
            &&& fiber.inject.len() == 0
            &&& fiber.ctx == ctx
            &&& fiber.state == FiberState::Active
            &&& fiber.loaded == fiber.desired
            &&& fiber.loaded.len() > 0
            &&& fiber.effects.len() == 0
            &&& fiber.error is None
            &&& fiber.store == Map::<Seq<char>, ProviderSnapshot>::empty()
            &&& fiber.raw_config == Json::Null
            &&& fiber.config == Json::Null
            &&& fiber.next_effect_id == 1
            &&& !fiber.dirty && !fiber.force && !fiber.running
            &&& root.services.contains_key(key) <==> key == ("logger"@, DEFAULT_LABEL)
            &&& root.services[("logger"@, DEFAULT_LABEL)] == (ServiceImpl {
                value: logger,
                provider_uid: 0,
                check: None,
                compute: None,
            })
            &&& DEFAULT_LABEL == 0
            &&& root.registry.len() == 0
            &&& root.registry.dom().finite()
            &&& !root.hooks.contains_key(key.0)
            &&& root.label_seed == 1
            &&& root.scope_seed == 1
            &&& root.outbox.len() == 0
        }),
{
    reveal_strlit(":root");
    assert(":root"@.len() == 5);
}

} // verus!
