//! One-shot listeners.

use vstd::prelude::*;

use crate::context::Context;
use crate::disposal::law_listener_comes_and_goes;
use crate::effects::{listens, EffectGuard};
use crate::error::Error;
use crate::events::{has_callback, hooks_of, Hook};
use crate::fiber::{
    effect_at, effects_wf, has_effect, law_effect_disposed_once, without_effect,
};
use crate::root::{RootState, RootView};

verus! {

impl RootView {
    /// The listener of `guard` gone, if it is still there.
    pub open spec fn unlistened(self, guard: EffectGuard) -> RootView {
        if has_effect(self.fibers[guard.fiber as int].effects, guard.id) {
            self.without_effect_of(guard).undone(self.disposer_of(guard)).settled(
                guard.fiber as int,
            )
        } else {
            self
        }
    }
}

/// Lets a one-shot listener run at most once, and disposes of it as it does.
pub struct OnceGate {
    pub fired: bool,
    /// The registration of the listener, as soon as it is known.
    pub guard: Option<EffectGuard>,
}

impl OnceGate {
    pub fn new() -> (res: OnceGate)
        ensures
            !res.fired,
            res.guard is None,
    {
        OnceGate { fired: false, guard: None }
    }

    /// Keep the registration, so that firing disposes of it.
    pub fn arm(&mut self, guard: EffectGuard)
        ensures
            *final(self) == (OnceGate { guard: Some(guard), ..*old(self) }),
    {
        self.guard = Some(guard);
    }

    /// Whether this call may run the listener: only the first one may. With
    /// it the listener is disposed of, so that no later dispatch finds it.
    pub fn enter(&mut self, root: &mut RootState) -> (res: bool)
        requires
            old(root).wf(),
            old(self).guard matches Some(guard) ==> old(root).has_fiber(guard.fiber),
        ensures
            final(root).wf(),
            res == !old(self).fired,
            *final(self) == (OnceGate { fired: true, ..*old(self) }),
            !res ==> final(root)@ == old(root)@,
            res ==> final(root)@ == match old(self).guard {
                Some(guard) => old(root)@.unlistened(guard),
                None => old(root)@,
            },
    {
        if self.fired {
            return false;
        }
        self.fired = true;
        if let Some(guard) = self.guard {
            let ghost before = *root;
            let ghost effects = before@.fibers[guard.fiber as int].effects;
            assert(before@.fibers[guard.fiber as int] == before.fibers@[guard.fiber as int]@);
            match guard.dispose(root) {
                Some(disposer) => {
                    proof {
                        let i = choose|i: int| #[trigger]
                            effect_at(effects, i, guard.id) && effects[i].unwrap().disposer
                                == disposer@;
                        let j = choose|j: int| effect_at(effects, j, guard.id);
                        assert(effect_at(effects, j, guard.id));
                        assert(before.fibers@[guard.fiber as int].wf());
                        assert(i == j);
                    }
                    root.undo(disposer);
                    root.disposer_done(guard.fiber);
                },
                None => {
                    proof {
                        assert forall|i: int| 0 <= i < effects.len() implies #[trigger]
                            without_effect(effects, guard.id)[i] == effects[i] by {
                            assert(!effect_at(effects, i, guard.id));
                        }
                        assert(without_effect(effects, guard.id) =~= effects);
                        assert(root@ =~= before@);
                    }
                },
            }
        }
        true
    }
}

impl Context {
    /// Register a one-shot listener behind `gate`, which keeps the
    /// registration: whenever the listener fires first, it is disposed of.
    pub fn once(
        &self,
        root: &mut RootState,
        name: &str,
        callback: u64,
        gate: &mut OnceGate,
    ) -> (res: Result<EffectGuard, Error>)
        requires
            old(root).wf(),
            old(root).has_context(*self),
        ensures
            final(root).wf(),
            final(root).has_context(*self),
            listens(
                old(root)@,
                final(root)@,
                name@,
                Hook { ctx: *self, callback, prepend: false, global: false, sync: false },
                res,
            ),
            *final(gate) == match res {
                Ok(guard) => OnceGate { guard: Some(guard), ..*old(gate) },
                Err(_) => *old(gate),
            },
    {
        match self.on(root, name, callback) {
            Ok(guard) => {
                gate.arm(guard);
                Ok(guard)
            },
            Err(error) => Err(error),
        }
    }
}

/// A one-shot listener that has fired leaves nothing behind: its event has
/// the listeners that it had before, and so has every other event.
pub proof fn law_fired_listener_is_gone(
    root: RootView,
    name: Seq<char>,
    hook: Hook,
    guard: EffectGuard,
    other: Seq<char>,
)
    requires
        hook.ctx.fiber == Some(guard.fiber),
        guard.fiber < root.fibers.len(),
        guard.id == root.fibers[guard.fiber as int].next_effect_id,
        effects_wf(root.fibers[guard.fiber as int].effects, guard.id),
        !has_callback(hooks_of(root.hooks, name), hook.callback),
    ensures
        hooks_of(root.listening(name, hook).unlistened(guard).hooks, other) == hooks_of(
            root.hooks,
            other,
        ),
{
    law_listener_comes_and_goes(root, name, hook, guard, Seq::empty(), other);
}

/// Firing disposes of the listener by its registration: where that is still
/// live, it is taken out of the effects of its fiber and what it registered is
/// undone; where it is not, nothing changes.
pub proof fn law_firing_disposes_of_its_registration(root: RootView, guard: EffectGuard, i: int)
    requires
        guard.fiber < root.fibers.len(),
        effects_wf(
            root.fibers[guard.fiber as int].effects,
            root.fibers[guard.fiber as int].next_effect_id,
        ),
    ensures
        ({
            let f = guard.fiber as int;
            let effects = root.fibers[f].effects;
            let after = root.unlistened(guard);
            let slot = effects[i];
            &&& 0 <= i < effects.len() && slot is Some && slot.unwrap().id == guard.id ==> {
                &&& after.services == root.undone(slot.unwrap().disposer).services
                &&& after.hooks == root.undone(slot.unwrap().disposer).hooks
                &&& after.fibers[f].effects[i] is None
                &&& !has_effect(after.fibers[f].effects, guard.id)
            }
            &&& !has_effect(effects, guard.id) ==> after == root
        }),
{
    let f = guard.fiber as int;
    let effects = root.fibers[f].effects;
    if 0 <= i < effects.len() && effects[i] is Some && effects[i].unwrap().id == guard.id {
        assert(effect_at(effects, i, guard.id));
        let j = choose|j: int| effect_at(effects, j, guard.id);
        assert(effect_at(effects, j, guard.id));
        assert(i == j);
        law_effect_disposed_once(effects, guard.id, guard.id);
    }
}

} // verus!
