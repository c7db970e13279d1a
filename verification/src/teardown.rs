//! What a driver leaves behind once it has run the disposers of its fiber.

use vstd::prelude::*;

use crate::context::Context;
use crate::driver::{steps, Action, Afterwards, Event, PhaseView};
use crate::effects::UndoView;
use crate::error::Error;
use crate::events::{has_callback, lemma_without_first, without_callback, Hook};
use crate::fiber::{
    disposal_order, inactive, law_effects_dispose_lifo, live, DisposerView, EffectView, FiberState,
};
use crate::reload::lemma_disposed_of;
use crate::resolve::{NoticeView, ProbeView};
use crate::root::{CommandView, RootView};

verus! {

// ---------------------------------------------------------------------------
// One disposer
// ---------------------------------------------------------------------------

/// A service withdrawn: it is gone from its scope, and no other service, no
/// listener and no fiber is touched.
pub open spec fn withdraws(before: RootView, after: RootView, name: Seq<char>, label: u64) -> bool {
    &&& after.services == before.services.remove((name, label))
    &&& after.hooks == before.hooks
    &&& after.registry == before.registry
    &&& after.fibers == before.fibers
}

/// A listener removed: of the hooks of `event` the first one of `callback` is
/// gone and the others stand as they stood; no other event, no service and no
/// fiber is touched.
pub open spec fn unhooks(
    before: RootView,
    after: RootView,
    event: Seq<char>,
    callback: u64,
) -> bool {
    let hooks = before.hooks[event];
    &&& after.services == before.services
    &&& after.registry == before.registry
    &&& after.fibers == before.fibers
    &&& forall|i: int|
        #![trigger hooks[i]]
        before.hooks.contains_key(event) && 0 <= i < hooks.len() && hooks[i].callback == callback
            && (forall|j: int| 0 <= j < i ==> (#[trigger] hooks[j]).callback != callback)
            ==> after.hooks == before.hooks.insert(event, hooks.remove(i))
    &&& !before.hooks.contains_key(event) || (forall|i: int|
        0 <= i < hooks.len() ==> (#[trigger] hooks[i]).callback != callback) ==> after.hooks
        == before.hooks
}

proof fn lemma_unhooked(root: RootView, event: Seq<char>, callback: u64)
    ensures
        unhooks(root, root.undone(DisposerView::Unhook { event, callback }), event, callback),
{
    let hooks = root.hooks[event];
    let after = root.undone(DisposerView::Unhook { event, callback });
    assert forall|i: int|
        #![trigger hooks[i]]
        root.hooks.contains_key(event) && 0 <= i < hooks.len() && hooks[i].callback == callback && (
        forall|j: int|
            0 <= j < i ==> (#[trigger] hooks[j]).callback != callback) implies after.hooks
        == root.hooks.insert(event, hooks.remove(i)) by {
        lemma_without_first(hooks, i, callback);
        assert(has_callback(hooks, callback));
    }
}

/// A driver performs every disposer that is due, whatever follows once they
/// have all run: the end of an unload, the end of a failed startup, or
/// nothing. A service is withdrawn from its scope and its dependents are asked
/// for; a listener is removed from its event; a cleanup routine is handed out
/// to be run. The disposers after it stay due, and so does what follows.
pub proof fn law_due_disposer_is_performed(
    root: RootView,
    left: Seq<DisposerView>,
    after: Afterwards,
    event: Event,
    f: int,
    after_root: RootView,
    after_phase: PhaseView,
    action: Action,
)
    requires
        left.len() > 0,
        steps(
            root,
            PhaseView::Disposing { left, after },
            event,
            f,
            after_root,
            after_phase,
            action,
        ),
    ensures
        after_root.services == root.undone(left[0]).services,
        after_root.hooks == root.undone(left[0]).hooks,
        match left[0] {
            DisposerView::Withdraw { ctx, name } => {
                &&& after_root.services == root.services.remove((name, ctx.label_of(name)))
                &&& after_root.hooks == root.hooks
                &&& after_root.fibers == root.fibers
                &&& after_root.outbox == root.outbox
                &&& action is Ask
                &&& after_phase == (PhaseView::Withdrawing {
                    notice: after_root.notice_at(ctx, name, ctx.label_of(name)),
                    left: left.skip(1),
                    after,
                })
            },
            DisposerView::Unhook { event: listened, callback } => {
                &&& unhooks(root, after_root, listened, callback)
                &&& after_root.outbox == root.outbox.push(CommandView::Settle(f))
                &&& action is Continue
                &&& after_phase == (PhaseView::Disposing { left: left.skip(1), after })
            },
            DisposerView::Task(task) => {
                &&& after_root == root
                &&& action == Action::Clean(task)
                &&& after_phase == (PhaseView::Cleaning { left: left.skip(1), after })
            },
        },
{
    assert(left.skip(1) =~= left.drop_first());
    if let DisposerView::Unhook { event: listened, callback } = left[0] {
        lemma_unhooked(root, listened, callback);
    }
}

/// What a disposer undoes is undone at once, for whoever runs it: the service
/// is gone from its scope, or the first listener of that callback from its
/// event, and nothing else changes.
pub proof fn law_undoing_is_exact(root: RootView, disposer: DisposerView)
    ensures
        match disposer {
            DisposerView::Withdraw { ctx, name } => {
                let gone = root.undone(disposer);
                let label = ctx.label_of(name);
                &&& withdraws(root, gone, name, label)
                &&& root.left_of(disposer) == UndoView::Notify(gone.notice_at(ctx, name, label))
            },
            DisposerView::Unhook { event, callback } => unhooks(
                root,
                root.undone(disposer),
                event,
                callback,
            ) && root.left_of(disposer) is Done,
            DisposerView::Task(task) => root.undone(disposer) == root && root.left_of(disposer)
                == UndoView::Task(task),
        },
{
    if let DisposerView::Unhook { event, callback } = disposer {
        lemma_unhooked(root, event, callback);
    }
}

// ---------------------------------------------------------------------------
// All of them
// ---------------------------------------------------------------------------

/// A stretch of the work of the driver of `f`: step `k` leads from the root
/// `before[k]` and the phase `phases[k]` to the root `after[k]` and the phase
/// `phases[k + 1]`. Between two steps others may have been at work on the root.
pub open spec fn works_through(
    f: int,
    before: Seq<RootView>,
    phases: Seq<PhaseView>,
    events: Seq<Event>,
    after: Seq<RootView>,
    actions: Seq<Action>,
) -> bool {
    &&& before.len() == events.len()
    &&& after.len() == events.len()
    &&& actions.len() == events.len()
    &&& phases.len() == events.len() + 1
    &&& forall|k: int|
        #![trigger before[k]]
        0 <= k < events.len() ==> steps(
            before[k],
            phases[k],
            events[k],
            f,
            after[k],
            phases[k + 1],
            actions[k],
        )
}

/// In all these phases the driver disposes, and it has not run out of disposers
/// before the last of them.
pub open spec fn disposes_throughout(phases: Seq<PhaseView>) -> bool {
    forall|k: int|
        0 <= k < phases.len() - 1 ==> (match #[trigger] phases[k] {
            PhaseView::Disposing { left, .. } => left.len() > 0,
            PhaseView::Cleaning { .. } | PhaseView::Withdrawing { .. } => true,
            _ => false,
        })
}

/// The disposers that are still due in a phase.
spec fn due(phase: PhaseView) -> Seq<DisposerView> {
    match phase {
        PhaseView::Disposing { left, .. } => left,
        PhaseView::Cleaning { left, .. } => left,
        PhaseView::Withdrawing { left, .. } => left,
        _ => Seq::empty(),
    }
}

/// Nobody who works on the root between the steps brings the service back.
pub open spec fn stays_withdrawn(
    before: Seq<RootView>,
    after: Seq<RootView>,
    key: (Seq<char>, u64),
) -> bool {
    forall|k: int|
        0 <= k < after.len() - 1 && !(#[trigger] after[k]).services.contains_key(key)
            ==> !before[k + 1].services.contains_key(key)
}

/// No hook of `callback` is among those of `event`.
pub open spec fn unheard(root: RootView, event: Seq<char>, callback: u64) -> bool {
    root.hooks.contains_key(event) ==> forall|i: int|
        0 <= i < root.hooks[event].len() ==> (#[trigger] root.hooks[event][i]).callback != callback
}

/// At most one hook of `callback` is among those of `event`.
pub open spec fn heard_once(root: RootView, event: Seq<char>, callback: u64) -> bool {
    root.hooks.contains_key(event) ==> forall|i: int, j: int|
        0 <= i < root.hooks[event].len() && 0 <= j < root.hooks[event].len()
            && (#[trigger] root.hooks[event][i]).callback == callback
            && (#[trigger] root.hooks[event][j]).callback == callback ==> i == j
}

/// Nobody who works on the root between the steps registers the listener again,
/// and it is never registered twice.
pub open spec fn stays_unheard(
    before: Seq<RootView>,
    after: Seq<RootView>,
    event: Seq<char>,
    callback: u64,
) -> bool {
    &&& forall|k: int|
        0 <= k < before.len() ==> heard_once(#[trigger] before[k], event, callback)
    &&& forall|k: int|
        0 <= k < after.len() - 1 && unheard(#[trigger] after[k], event, callback) ==> unheard(
            before[k + 1],
            event,
            callback,
        )
}

proof fn lemma_answered_keeps(root: RootView, probes: Seq<ProbeView>, verdicts: Seq<bool>)
    ensures
        root.answered(probes, verdicts).services == root.services,
        root.answered(probes, verdicts).hooks == root.hooks,
    decreases probes.len(),
{
    if probes.len() > 0 {
        lemma_answered_keeps(root, probes.drop_last(), verdicts);
    }
}

proof fn lemma_refreshed_keeps(root: RootView, fibers: Seq<usize>)
    ensures
        root.refreshed_all(fibers).services == root.services,
        root.refreshed_all(fibers).hooks == root.hooks,
    decreases fibers.len(),
{
    if fibers.len() > 0 {
        lemma_refreshed_keeps(root, fibers.drop_last());
    }
}

/// Making a change known registers and removes nothing, whoever is told.
pub proof fn lemma_notified_keeps(root: RootView, notice: NoticeView, verdicts: Seq<bool>)
    ensures
        root.notified(notice, verdicts).services == root.services,
        root.notified(notice, verdicts).hooks == root.hooks,
{
    lemma_answered_keeps(root, notice.probes, verdicts);
    lemma_refreshed_keeps(root.answered(notice.probes, verdicts), notice.fibers);
}

/// One step of a driver that disposes: the disposer that was due first is
/// performed if the step is its own, and none is forgotten.
proof fn lemma_due(
    root: RootView,
    phase: PhaseView,
    event: Event,
    f: int,
    after_root: RootView,
    after_phase: PhaseView,
    action: Action,
)
    requires
        steps(root, phase, event, f, after_root, after_phase, action),
        match phase {
            PhaseView::Disposing { left, .. } => left.len() > 0,
            PhaseView::Cleaning { .. } | PhaseView::Withdrawing { .. } => true,
            _ => false,
        },
    ensures
        phase is Disposing ==> due(after_phase) == due(phase).skip(1),
        phase is Disposing ==> after_root.services == root.undone(due(phase)[0]).services
            && after_root.hooks == root.undone(due(phase)[0]).hooks,
        phase !is Disposing ==> due(after_phase) == due(phase) && after_root.services
            == root.services && after_root.hooks == root.hooks,
        after_phase is Disposing || after_phase is Cleaning || after_phase is Withdrawing,
{
    match phase {
        PhaseView::Disposing { left, after } => {
            law_due_disposer_is_performed(
                root,
                left,
                after,
                event,
                f,
                after_root,
                after_phase,
                action,
            );
        },
        PhaseView::Withdrawing { notice, .. } => {
            if let Event::Verdicts(verdicts) = event {
                lemma_notified_keeps(root, notice, verdicts@);
            }
        },
        _ => {},
    }
}

proof fn lemma_service_goes(
    f: int,
    before: Seq<RootView>,
    phases: Seq<PhaseView>,
    events: Seq<Event>,
    after: Seq<RootView>,
    actions: Seq<Action>,
    ctx: Context,
    name: Seq<char>,
    n: int,
)
    requires
        works_through(f, before, phases, events, after, actions),
        disposes_throughout(phases),
        due(phases[0]).contains(DisposerView::Withdraw { ctx, name }),
        stays_withdrawn(before, after, (name, ctx.label_of(name))),
        0 < n <= events.len(),
    ensures
        due(phases[n]).contains(DisposerView::Withdraw { ctx, name }) || !after[n
            - 1].services.contains_key((name, ctx.label_of(name))),
    decreases n,
{
    let disposer = DisposerView::Withdraw { ctx, name };
    let key = (name, ctx.label_of(name));
    let m = n - 1;
    if m > 0 {
        lemma_service_goes(f, before, phases, events, after, actions, ctx, name, m);
        let _ = after[m - 1];
    }
    let root = before[m];
    let phase = phases[m];
    lemma_due(root, phase, events[m], f, after[m], phases[n], actions[m]);
    if due(phase).contains(disposer) {
        let i = choose|i: int| 0 <= i < due(phase).len() && due(phase)[i] == disposer;
        if phase is Disposing && i > 0 {
            assert(due(phase).skip(1)[i - 1] == disposer);
        }
    } else {
        assert(!root.services.contains_key(key));
    }
}

proof fn lemma_listener_goes(
    f: int,
    before: Seq<RootView>,
    phases: Seq<PhaseView>,
    events: Seq<Event>,
    after: Seq<RootView>,
    actions: Seq<Action>,
    event: Seq<char>,
    callback: u64,
    n: int,
)
    requires
        works_through(f, before, phases, events, after, actions),
        disposes_throughout(phases),
        due(phases[0]).contains(DisposerView::Unhook { event, callback }),
        stays_unheard(before, after, event, callback),
        0 < n <= events.len(),
    ensures
        due(phases[n]).contains(DisposerView::Unhook { event, callback }) || unheard(
            after[n - 1],
            event,
            callback,
        ),
    decreases n,
{
    let disposer = DisposerView::Unhook { event, callback };
    let m = n - 1;
    if m > 0 {
        lemma_listener_goes(f, before, phases, events, after, actions, event, callback, m);
        let _ = after[m - 1];
    }
    let root = before[m];
    let phase = phases[m];
    lemma_due(root, phase, events[m], f, after[m], phases[n], actions[m]);
    if due(phase).contains(disposer) {
        let i = choose|i: int| 0 <= i < due(phase).len() && due(phase)[i] == disposer;
        if phase is Disposing {
            if i > 0 {
                assert(due(phase).skip(1)[i - 1] == disposer);
            } else {
                lemma_heard_no_more(root, event, callback);
            }
        }
    } else if phase is Disposing {
        lemma_still_unheard(root, due(phase)[0], event, callback);
    }
}

/// A listener that was registered once is not heard any more once removed.
proof fn lemma_heard_no_more(root: RootView, event: Seq<char>, callback: u64)
    requires
        heard_once(root, event, callback),
    ensures
        unheard(root.undone(DisposerView::Unhook { event, callback }), event, callback),
{
    let after = root.undone(DisposerView::Unhook { event, callback });
    let hooks = root.hooks[event];
    lemma_unhooked(root, event, callback);
    if root.hooks.contains_key(event) && exists|i: int|
        0 <= i < hooks.len() && (#[trigger] hooks[i]).callback == callback {
        let i = choose|i: int| 0 <= i < hooks.len() && (#[trigger] hooks[i]).callback == callback;
        assert forall|j: int| 0 <= j < i implies (#[trigger] hooks[j]).callback != callback by {
            if hooks[j].callback == callback {
                assert(root.hooks[event][j].callback == callback);
                assert(root.hooks[event][i].callback == callback);
            }
        }
        assert(after.hooks[event] == hooks.remove(i));
        assert forall|j: int| 0 <= j < after.hooks[event].len() implies (
        #[trigger] after.hooks[event][j]).callback != callback by {
            let at = if j < i {
                j
            } else {
                j + 1
            };
            assert(after.hooks[event][j] == hooks[at]);
            if hooks[at].callback == callback {
                assert(root.hooks[event][at].callback == callback);
                assert(root.hooks[event][i].callback == callback);
            }
        }
    }
}

/// No disposer brings a listener back.
proof fn lemma_still_unheard(
    root: RootView,
    disposer: DisposerView,
    event: Seq<char>,
    callback: u64,
)
    requires
        unheard(root, event, callback),
    ensures
        unheard(root.undone(disposer), event, callback),
{
    if let DisposerView::Unhook { event: listened, callback: removed } = disposer {
        if listened == event && root.hooks.contains_key(event) {
            lemma_kept(root.hooks[event], removed, callback);
        }
    }
}

/// Taking out one hook adds none.
proof fn lemma_kept(hooks: Seq<Hook>, removed: u64, callback: u64)
    requires
        forall|i: int| 0 <= i < hooks.len() ==> (#[trigger] hooks[i]).callback != callback,
    ensures
        forall|i: int|
            0 <= i < without_callback(hooks, removed).len() ==> (#[trigger] without_callback(
                hooks,
                removed,
            )[i]).callback != callback,
    decreases hooks.len(),
{
    if hooks.len() > 0 {
        let rest = hooks.drop_first();
        assert forall|i: int| 0 <= i < rest.len() implies (#[trigger] rest[i]).callback
            != callback by {
            assert(rest[i] == hooks[i + 1]);
        }
        lemma_kept(rest, removed, callback);
    }
}

/// When a driver has no disposer left to run, all that were due have done their
/// work, whatever follows afterwards: no service that was to be withdrawn is
/// there, and no listener that was to be removed is heard. Others may bring
/// the same service back, or register the same listener again, between the
/// steps; then it is theirs.
pub proof fn law_disposal_leaves_nothing_behind(
    f: int,
    before: Seq<RootView>,
    phases: Seq<PhaseView>,
    events: Seq<Event>,
    after: Seq<RootView>,
    actions: Seq<Action>,
    left: Seq<DisposerView>,
    follows: Afterwards,
    i: int,
)
    requires
        works_through(f, before, phases, events, after, actions),
        disposes_throughout(phases),
        events.len() > 0,
        phases[0] == (PhaseView::Disposing { left, after: follows }),
        phases.last() matches PhaseView::Disposing { left: last, .. } && last.len() == 0,
        0 <= i < left.len(),
        left[i] matches DisposerView::Withdraw { ctx, name } ==> stays_withdrawn(
            before,
            after,
            (name, ctx.label_of(name)),
        ),
        left[i] matches DisposerView::Unhook { event, callback } ==> stays_unheard(
            before,
            after,
            event,
            callback,
        ),
    ensures
        left[i] matches DisposerView::Withdraw { ctx, name }
            ==> !after.last().services.contains_key((name, ctx.label_of(name))),
        left[i] matches DisposerView::Unhook { event, callback } ==> unheard(
            after.last(),
            event,
            callback,
        ),
{
    let n = events.len() as int;
    assert(due(phases[0])[i] == left[i]);
    assert(due(phases[n]).len() == 0);
    match left[i] {
        DisposerView::Withdraw { ctx, name } => {
            lemma_service_goes(f, before, phases, events, after, actions, ctx, name, n);
        },
        DisposerView::Unhook { event, callback } => {
            lemma_listener_goes(f, before, phases, events, after, actions, event, callback, n);
        },
        DisposerView::Task(_) => {},
    }
}

/// A startup that failed has all that the plugin body registered disposed of:
/// every live effect of the fiber is due, newest first, and the fiber has none
/// from then on. Until they have run nothing else changes.
pub proof fn law_failed_startup_disposes_of_its_effects(
    root: RootView,
    target: Seq<char>,
    error: Error,
    event: Event,
    f: int,
    after_root: RootView,
    after_phase: PhaseView,
    action: Action,
)
    requires
        0 <= f < root.fibers.len(),
        event == Event::Applied(Err(error)),
        steps(root, PhaseView::Applying { target }, event, f, after_root, after_phase, action),
    ensures
        action is Continue,
        after_root.services == root.services,
        after_root.hooks == root.hooks,
        after_root.fibers[f].effects.len() == 0,
        after_phase matches PhaseView::Disposing { left, after } && after == Afterwards::Failed(
            error,
        ) && all_due(root.fibers[f].effects, left),
{
    lemma_all_due(root.fibers[f].effects);
}

/// The disposers of the live effects, newest first: each effect has its turn,
/// and one that was registered later has its turn earlier.
pub open spec fn all_due(effects: Seq<Option<EffectView>>, left: Seq<DisposerView>) -> bool {
    &&& left.len() == live(effects).len()
    &&& forall|i: int|
        0 <= i < effects.len() ==> ((#[trigger] effects[i]) matches Some(effect) ==> left.contains(
            effect.disposer,
        ))
    &&& forall|i: int|
        0 <= i < left.len() ==> #[trigger] left[i] == live(effects)[left.len() - 1 - i].disposer
}

proof fn lemma_all_due(effects: Seq<Option<EffectView>>)
    ensures
        all_due(effects, disposal_order(effects)),
{
    law_effects_dispose_lifo(effects);
    assert forall|i: int| 0 <= i < effects.len() implies ((
    #[trigger] effects[i]) matches Some(effect) ==> disposal_order(effects).contains(
        effect.disposer,
    )) by {
        if effects[i] is Some {
            lemma_disposed_of(effects, i);
        }
    }
}

/// Once a startup has failed, nothing that the run of the plugin body
/// registered is left: effect `i` of the fiber withdrew its service or removed
/// its listener by the time its driver has no disposer left to run.
pub proof fn law_failed_startup_leaves_nothing_behind(
    f: int,
    target: Seq<char>,
    error: Error,
    before: Seq<RootView>,
    phases: Seq<PhaseView>,
    events: Seq<Event>,
    after: Seq<RootView>,
    actions: Seq<Action>,
    i: int,
)
    requires
        works_through(f, before, phases, events, after, actions),
        events.len() > 1,
        0 <= f < before[0].fibers.len(),
        phases[0] == (PhaseView::Applying { target }),
        events[0] == Event::Applied(Err(error)),
        disposes_throughout(phases.skip(1)),
        phases.last() matches PhaseView::Disposing { left: last, .. } && last.len() == 0,
        0 <= i < before[0].fibers[f].effects.len(),
        before[0].fibers[f].effects[i] matches Some(effect) && (match effect.disposer {
            DisposerView::Withdraw { ctx, name } => stays_withdrawn(
                before.skip(1),
                after.skip(1),
                (name, ctx.label_of(name)),
            ),
            DisposerView::Unhook { event, callback } => stays_unheard(
                before.skip(1),
                after.skip(1),
                event,
                callback,
            ),
            DisposerView::Task(_) => true,
        }),
    ensures
        before[0].fibers[f].effects[i] matches Some(effect) && (match effect.disposer {
            DisposerView::Withdraw { ctx, name } => !after.last().services.contains_key(
                (name, ctx.label_of(name)),
            ),
            DisposerView::Unhook { event, callback } => unheard(after.last(), event, callback),
            DisposerView::Task(_) => true,
        }),
{
    let effects = before[0].fibers[f].effects;
    let disposer = effects[i].unwrap().disposer;
    let left = disposal_order(effects);
    lemma_disposed_of(effects, i);
    let at = choose|at: int| 0 <= at < left.len() && left[at] == disposer;
    let root = before[0];
    assert(phases[1] == (PhaseView::Disposing { left, after: Afterwards::Failed(error) }));
    lemma_later(f, before, phases, events, after, actions);
    law_disposal_leaves_nothing_behind(
        f,
        before.skip(1),
        phases.skip(1),
        events.skip(1),
        after.skip(1),
        actions.skip(1),
        left,
        Afterwards::Failed(error),
        at,
    );
}

/// All but the first step of a stretch of work is one too.
proof fn lemma_later(
    f: int,
    before: Seq<RootView>,
    phases: Seq<PhaseView>,
    events: Seq<Event>,
    after: Seq<RootView>,
    actions: Seq<Action>,
)
    requires
        works_through(f, before, phases, events, after, actions),
        events.len() > 0,
    ensures
        works_through(
            f,
            before.skip(1),
            phases.skip(1),
            events.skip(1),
            after.skip(1),
            actions.skip(1),
        ),
{
    assert forall|k: int|
        #![trigger before.skip(1)[k]]
        0 <= k < events.skip(1).len() implies steps(
        before.skip(1)[k],
        phases.skip(1)[k],
        events.skip(1)[k],
        f,
        after.skip(1)[k],
        phases.skip(1)[k + 1],
        actions.skip(1)[k],
    ) by {
        let _ = before[k + 1];
    }
}

/// What follows once no disposer is left. After an unload the fiber has nothing
/// loaded. After a failed startup it has nothing loaded, desires nothing and
/// keeps the error, which has been logged for the context of the fiber under
/// its name; so it counts as failed. Where one effect was disposed of ahead of
/// its fiber, nothing follows and the driver ends.
pub proof fn law_what_follows_disposal(
    root: RootView,
    follows: Afterwards,
    event: Event,
    f: int,
    after_root: RootView,
    after_phase: PhaseView,
    action: Action,
)
    requires
        0 <= f < root.fibers.len(),
        steps(
            root,
            PhaseView::Disposing { left: Seq::empty(), after: follows },
            event,
            f,
            after_root,
            after_phase,
            action,
        ),
    ensures
        after_root.services == root.services,
        after_root.hooks == root.hooks,
        match follows {
            Afterwards::Unloaded { forced } => {
                let fiber = after_root.fibers[f];
                &&& fiber.loaded.len() == 0
                &&& fiber.desired == root.fibers[f].desired
                &&& fiber.error == root.fibers[f].error
                &&& fiber.force == (root.fibers[f].force && !forced)
                &&& root.fibers[f].desired.len() == 0 ==> forall|name: Seq<char>|
                    !#[trigger] fiber.store.contains_key(name)
                &&& root.fibers[f].desired.len() > 0 ==> fiber.store == root.fibers[f].store
                &&& after_phase is Looking
                &&& action is Continue
            },
            Afterwards::Failed(error) => {
                let fiber = after_root.fibers[f];
                &&& fiber.loaded.len() == 0
                &&& fiber.desired.len() == 0
                &&& fiber.error == Some(error.deep())
                &&& fiber.uid is Some && !root.fibers[f].dirty ==> fiber.state
                    == FiberState::Failed
                &&& after_root.outbox[root.outbox.len() as int] matches CommandView::Log {
                    ctx,
                    message,
                    code,
                    ..
                } && ctx == root.fibers[f].ctx && message == root.fibers[f].name + ": "@
                    + error.text() && code == error.code_text()
                &&& after_phase is Looking
                &&& action is Continue
            },
            Afterwards::Nothing => after_root == root && after_phase is Ended && action is End,
        },
{
    if root.fibers[f].desired.len() == 0 {
        assert(root.fibers[f].desired =~= inactive());
    }
}

/// Disposers that unload: a fiber with something loaded that is to stop, to run
/// with other providers or to make a round trip, has every live effect due,
/// newest first, and no effects from then on.
pub proof fn law_unload_disposes_of_everything(
    root: RootView,
    event: Event,
    f: int,
    after_root: RootView,
    after_phase: PhaseView,
    action: Action,
)
    requires
        0 <= f < root.fibers.len(),
        steps(root, PhaseView::Looking, event, f, after_root, after_phase, action),
        root.fibers[f].loaded.len() > 0,
        root.fibers[f].desired != root.fibers[f].loaded || root.fibers[f].force,
    ensures
        after_phase matches PhaseView::Disposing { left, after } && after == (
        Afterwards::Unloaded { forced: root.fibers[f].force }) && all_due(
            root.fibers[f].effects,
            left,
        ),
        after_root.fibers[f].effects.len() == 0,
        after_root.fibers[f].loaded == root.fibers[f].loaded,
        after_root.services == root.services,
        after_root.hooks == root.hooks,
        action is Continue,
{
    lemma_all_due(root.fibers[f].effects);
}

} // verus!
