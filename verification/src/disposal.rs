//! Disposing of one effect ahead of its fiber.

use vstd::prelude::*;

use crate::context::Context;
use crate::driver::{steps, Action, Afterwards, Event, PhaseView};
use crate::effects::{effect_label, EffectGuard, UndoView};
use crate::events::{has_callback, hooks_of, with_hook, without_callback, Hook};
use crate::fiber::{
    disposal_order, effect_at, effects_wf, has_effect, live, without_effect, DisposerView,
    EffectView, FiberState, FiberView,
};
use crate::reactivity::law_change_reaches_its_dependents;
use crate::resolve::Reading;
use crate::root::RootView;
use crate::service::ServiceImpl;

verus! {

impl RootView {
    /// The effect of `guard` out of the list of its fiber.
    pub open spec fn without_effect_of(self, guard: EffectGuard) -> RootView {
        self.with_fiber(
            guard.fiber as int,
            FiberView {
                effects: without_effect(self.fibers[guard.fiber as int].effects, guard.id),
                ..self.fibers[guard.fiber as int]
            },
        )
    }

    /// What undoing the live effect of `guard` takes.
    pub open spec fn disposer_of(self, guard: EffectGuard) -> DisposerView {
        let effects = self.fibers[guard.fiber as int].effects;
        effects[choose|i: int| effect_at(effects, i, guard.id)].unwrap().disposer
    }

    /// The effect of `guard` disposed of, if it is live; `verdicts` is what
    /// the predicates say where dependents have to be told.
    pub open spec fn disposed_of(self, guard: EffectGuard, verdicts: Seq<bool>) -> RootView {
        if has_effect(self.fibers[guard.fiber as int].effects, guard.id) {
            let taken = self.without_effect_of(guard);
            let disposer = self.disposer_of(guard);
            match taken.left_of(disposer) {
                UndoView::Notify(notice) => taken.undone(disposer).notified(notice, verdicts),
                _ => taken.undone(disposer),
            }.settled(guard.fiber as int)
        } else {
            self
        }
    }
}

/// Disposing of an effect is what its driver does: it has one disposer before
/// it, undoes it, has the cleanup routine run or the dependents asked where
/// that is left to do, and ends.
pub proof fn law_disposal_is_driven(
    root: RootView,
    guard: EffectGuard,
    phase: PhaseView,
    go: Event,
    undone: RootView,
    second: PhaseView,
    action: Action,
    reply: Event,
    replied: RootView,
    third: PhaseView,
    next: Action,
    verdicts: Seq<bool>,
)
    requires
        has_effect(root.fibers[guard.fiber as int].effects, guard.id),
        phase == (PhaseView::Disposing {
            left: seq![root.disposer_of(guard)],
            after: Afterwards::Nothing,
        }),
        steps(
            root.without_effect_of(guard),
            phase,
            go,
            guard.fiber as int,
            undone,
            second,
            action,
        ),
        second.expects(reply),
        reply matches Event::Verdicts(v) ==> v@ == verdicts,
        steps(undone, second, reply, guard.fiber as int, replied, third, next),
    ensures
        second is Disposing ==> undone == root.disposed_of(guard, verdicts) && third is Ended,
        second !is Disposing ==> replied == root.disposed_of(guard, verdicts) && third
            == (PhaseView::Disposing { left: Seq::empty(), after: Afterwards::Nothing }),
{
    let left = seq![root.disposer_of(guard)];
    assert(left.drop_first() =~= Seq::empty());
}

/// The newest effect of a fiber is found again by its id.
proof fn lemma_newest(before: Seq<Option<EffectView>>, effect: EffectView)
    requires
        effects_wf(before, effect.id),
    ensures
        has_effect(before.push(Some(effect)), effect.id),
        before.push(Some(effect))[choose|i: int|
            effect_at(before.push(Some(effect)), i, effect.id)] == Some(effect),
        without_effect(before.push(Some(effect)), effect.id) == before.push(None),
        live(without_effect(before.push(Some(effect)), effect.id)) == live(before),
        live(before.push(Some(effect))) == live(before).push(effect),
{
    let effects = before.push(Some(effect));
    assert(effect_at(effects, effects.len() - 1, effect.id));
    let i = choose|i: int| effect_at(effects, i, effect.id);
    assert(effect_at(effects, i, effect.id));
    if i < before.len() {
        assert(effect_at(before, i, effect.id));
    }
    assert forall|j: int| 0 <= j < effects.len() implies #[trigger] without_effect(
        effects,
        effect.id,
    )[j] == before.push(None)[j] by {
        if j < before.len() {
            assert(!effect_at(before, j, effect.id));
        }
    }
    assert(without_effect(effects, effect.id) =~= before.push(None));
    assert(before.push(None).drop_last() =~= before);
    assert(effects.drop_last() =~= before);
}

// ---------------------------------------------------------------------------
// Listeners
// ---------------------------------------------------------------------------

/// Removing a listener removes exactly that one, wherever it stands by then.
pub proof fn law_unhook_removes_one(earlier: Seq<Hook>, hook: Hook, later: Seq<Hook>)
    requires
        !has_callback(earlier, hook.callback),
    ensures
        has_callback(earlier + seq![hook] + later, hook.callback),
        without_callback(earlier + seq![hook] + later, hook.callback) == earlier + later,
    decreases earlier.len(),
{
    let all = earlier + seq![hook] + later;
    assert(all[earlier.len() as int] == hook);
    if earlier.len() == 0 {
        assert(all.drop_first() =~= earlier + later);
    } else {
        let rest = earlier.drop_first();
        assert(earlier[0].callback != hook.callback);
        assert(!has_callback(rest, hook.callback)) by {
            if has_callback(rest, hook.callback) {
                let i = choose|i: int|
                    0 <= i < rest.len() && (#[trigger] rest[i]).callback == hook.callback;
                assert(earlier[i + 1].callback == hook.callback);
            }
        }
        law_unhook_removes_one(rest, hook, later);
        assert(all.drop_first() =~= rest + seq![hook] + later);
        assert(seq![earlier[0]] + (rest + later) =~= earlier + later);
    }
}

proof fn lemma_added(hooks: Seq<Hook>, hook: Hook)
    requires
        !has_callback(hooks, hook.callback),
    ensures
        without_callback(with_hook(hooks, hook), hook.callback) == hooks,
        has_callback(with_hook(hooks, hook), hook.callback),
{
    if hook.prepend {
        law_unhook_removes_one(Seq::empty(), hook, hooks);
        assert(Seq::<Hook>::empty() + seq![hook] + hooks =~= with_hook(hooks, hook));
        assert(Seq::<Hook>::empty() + hooks =~= hooks);
    } else {
        law_unhook_removes_one(hooks, hook, Seq::empty());
        assert(hooks + seq![hook] + Seq::<Hook>::empty() =~= with_hook(hooks, hook));
        assert(hooks + Seq::<Hook>::empty() =~= hooks);
    }
}

/// A listener comes and goes as an effect of the fiber of its context. Adding
/// it gives its event exactly this one listener more, first or last, and the
/// fiber one effect more. Disposing of it, or unloading the fiber, leaves
/// every event with the listeners that it would have without it.
pub proof fn law_listener_comes_and_goes(
    root: RootView,
    name: Seq<char>,
    hook: Hook,
    guard: EffectGuard,
    verdicts: Seq<bool>,
    other: Seq<char>,
)
    requires
        hook.ctx.fiber == Some(guard.fiber),
        guard.fiber < root.fibers.len(),
        guard.id == root.fibers[guard.fiber as int].next_effect_id,
        effects_wf(root.fibers[guard.fiber as int].effects, guard.id),
        !has_callback(hooks_of(root.hooks, name), hook.callback),
    ensures
        ({
            let f = guard.fiber as int;
            let added = root.listening(name, hook);
            let unhook = DisposerView::Unhook { event: name, callback: hook.callback };
            let gone = added.disposed_of(guard, verdicts);
            &&& hooks_of(added.hooks, name) == with_hook(hooks_of(root.hooks, name), hook)
            &&& other != name ==> hooks_of(added.hooks, other) == hooks_of(root.hooks, other)
            &&& live(added.fibers[f].effects) == live(root.fibers[f].effects).push(
                EffectView {
                    id: guard.id,
                    label: effect_label("on"@, name),
                    disposer: unhook,
                },
            )
            &&& has_effect(added.fibers[f].effects, guard.id)
            &&& added.disposer_of(guard) == unhook
            &&& hooks_of(gone.hooks, other) == hooks_of(root.hooks, other)
            &&& live(gone.fibers[f].effects) == live(root.fibers[f].effects)
            &&& disposal_order(added.fibers[f].effects) == seq![unhook] + disposal_order(
                root.fibers[f].effects,
            )
            &&& hooks_of(added.undone(unhook).hooks, other) == hooks_of(root.hooks, other)
        }),
{
    let f = guard.fiber as int;
    let added = root.listening(name, hook);
    let before = root.fibers[f].effects;
    let effect = EffectView {
        id: guard.id,
        label: effect_label("on"@, name),
        disposer: DisposerView::Unhook { event: name, callback: hook.callback },
    };
    assert(added.fibers[f].effects == before.push(Some(effect)));
    assert(before.push(Some(effect)).drop_last() =~= before);
    lemma_newest(before, effect);
    lemma_added(hooks_of(root.hooks, name), hook);
}

// ---------------------------------------------------------------------------
// Services
// ---------------------------------------------------------------------------

/// The active fiber of `ctx` requires no service that it has no snapshot of.
proof fn lemma_not_its_own(root: RootView, f: int, name: Seq<char>, label: u64)
    requires
        0 <= f < root.fibers.len(),
        root.fibers[f].state == FiberState::Active,
        root.fibers[f].sound(),
        root.fibers[f].runtime is None ==> root.fibers[f].inject.len() == 0,
        !root.fibers[f].store.contains_key(name),
    ensures
        !root.interested(f, name, label),
{
    if root.fibers[f].inject.contains(name) {
        let inject = root.fibers[f].inject;
        let j = choose|j: int| 0 <= j < inject.len() && inject[j] == name;
        assert(!root.fibers[f].store.contains_key(inject[j]));
    }
}

/// Provide, dispose, provide: between the two the service is missing, the
/// second time is not refused, and what is read then is the second value,
/// never the first. Dependents are told each time.
pub proof fn law_provide_dispose_provide(
    root: RootView,
    ctx: Context,
    name: Seq<char>,
    first: ServiceImpl,
    second: ServiceImpl,
    guard: EffectGuard,
    provided: Seq<bool>,
    withdrawn: Seq<bool>,
    again: Seq<bool>,
)
    requires
        root.fibers.len() <= usize::MAX,
        ctx.fiber == Some(guard.fiber),
        guard.fiber < root.fibers.len(),
        guard.id == root.fibers[guard.fiber as int].next_effect_id,
        effects_wf(root.fibers[guard.fiber as int].effects, guard.id),
        root.fibers[guard.fiber as int].uid == Some(guard.fiber as u64),
        root.fibers[guard.fiber as int].state == FiberState::Active,
        root.fibers[guard.fiber as int].sound(),
        root.fibers[guard.fiber as int].runtime is None
            ==> root.fibers[guard.fiber as int].inject.len() == 0,
        root.injected(ctx, name) is None,
        root.provide_refusal(ctx, name) is None,
        first.provider_uid == guard.fiber,
        first.compute is None,
        second.provider_uid == guard.fiber,
        second.compute is None,
    ensures
        ({
            let one = root.registered(ctx, "provide"@, name, first);
            let told = one.notified(one.notice(ctx, name), provided);
            let gone = told.disposed_of(guard, withdrawn);
            let two = gone.registered(ctx, "provide"@, name, second);
            let last = two.notified(two.notice(ctx, name), again);
            &&& told.reading(ctx, name) == Reading::Value(first.value)
            &&& gone.reading(ctx, name) == Reading::Missing
            &&& gone.services == root.services
            &&& gone.provide_refusal(ctx, name) is None
            &&& last.reading(ctx, name) == Reading::Value(second.value)
        }),
{
    let f = guard.fiber as int;
    let label = ctx.label_of(name);
    let before = root.fibers[f].effects;
    let effect = EffectView {
        id: guard.id,
        label: effect_label("provide"@, name),
        disposer: DisposerView::Withdraw { ctx, name },
    };
    lemma_not_its_own(root, f, name, label);
    lemma_newest(before, effect);
    let one = root.registered(ctx, "provide"@, name, first);
    assert(one.fibers[f].effects == before.push(Some(effect)));
    assert(!one.interested(f, name, label));
    law_change_reaches_its_dependents(one, ctx, name, label, provided, f);
    let told = one.notified(one.notice(ctx, name), provided);
    assert(told.fibers[f] == one.fibers[f]);
    assert(told.disposer_of(guard) == effect.disposer);
    let taken = told.without_effect_of(guard);
    let undone = taken.undone(effect.disposer);
    assert(!undone.interested(f, name, label));
    law_change_reaches_its_dependents(undone, ctx, name, label, withdrawn, f);
    let gone = told.disposed_of(guard, withdrawn);
    assert(gone.fibers[f] == undone.fibers[f]);
    assert(gone.services =~= root.services);
    let two = gone.registered(ctx, "provide"@, name, second);
    assert(!two.interested(f, name, label));
    law_change_reaches_its_dependents(two, ctx, name, label, again, f);
    let last = two.notified(two.notice(ctx, name), again);
    assert(last.fibers[f] == two.fibers[f]);
}

} // verus!
