//! Dispatching events from a context.
//!
//! Every mode starts from the listeners registered at that moment. The caller
//! runs them and hands their answers back to the machine of the mode.

use vstd::prelude::*;

use crate::context::Context;
use crate::dispatch::{
    callbacks, sync_stands, waterfall, NextCall, NextView, Serial, SerialState, SyncDispatch,
    SyncState,
};
use crate::error::Error;
use crate::events::{deliveries, law_scoped_dispatch, Delivery};
use crate::json::Json;
use crate::root::{RootState, RootView};

verus! {

/// A concurrent dispatch that begins.
pub enum Fanout {
    /// Nobody listens: the payload is the result.
    Done(Json),
    /// Call every listener with the payload and wait for all of them.
    Wait { listeners: Vec<Delivery>, payload: Json },
}

impl RootView {
    /// The chain of the listeners of `name`, dispatched from `ctx`.
    pub open spec fn chain(self, name: Seq<char>, fallback: Option<u64>, ctx: Context) -> NextView {
        NextView { steps: callbacks(self.reached(name, None)), fallback, ctx }
    }

    /// The chain that the config of `f` passes before the plugin sees it.
    pub open spec fn config_chain(self, f: int) -> NextView {
        self.chain("internal/config"@, None, self.fibers[f].ctx)
    }

    /// The chain that an update of `f` passes before it is applied, which is
    /// what `fallback` stands for.
    pub open spec fn update_chain(self, f: int, fallback: u64) -> NextView {
        self.chain("internal/update"@, Some(fallback), self.fibers[f].ctx)
    }
}

impl Context {
    /// The listeners of the event `name`, in call order.
    pub fn listeners(&self, root: &RootState, name: &str) -> (res: Vec<Delivery>)
        requires
            root.wf(),
        ensures
            res@ == root@.reached(name@, None),
    {
        root.events.dispatch(name, &None)
    }

    /// Fire-and-forget dispatch: whom to call, without waiting.
    pub fn emit(&self, root: &RootState, name: &str) -> (res: Vec<Delivery>)
        requires
            root.wf(),
        ensures
            res@ == root@.reached(name@, None),
    {
        self.listeners(root, name)
    }

    /// Dispatch for the sync slot: its listeners are awaited inline, in order,
    /// the others are not waited for.
    pub fn emit_sync(&self, root: &RootState, name: &str) -> (res: SyncState)
        requires
            root.wf(),
        ensures
            sync_stands(root@.reached(name@, None), 0, Seq::empty(), res),
    {
        SyncDispatch::start(self.listeners(root, name))
    }

    /// Concurrent dispatch: waits for every listener.
    pub fn parallel(&self, root: &RootState, name: &str, payload: Json) -> (res: Fanout)
        requires
            root.wf(),
        ensures
            root@.reached(name@, None).len() == 0 ==> res == Fanout::Done(payload),
            root@.reached(name@, None).len() > 0 ==> (res matches Fanout::Wait {
                listeners,
                payload: p,
            } && listeners@ == root@.reached(name@, None) && p == payload),
    {
        let listeners: Vec<Delivery> = self.listeners(root, name);
        if listeners.len() == 0 {
            return Fanout::Done(payload);
        }
        Fanout::Wait { listeners, payload }
    }

    /// Sequential dispatch until the first bail value.
    pub fn serial(&self, root: &RootState, name: &str, payload: Json) -> (res: SerialState)
        requires
            root.wf(),
        ensures
            match res {
                SerialState::Waiting(s) => s.wf() && s.listeners@ == root@.reached(name@, None)
                    && s.payload == payload && s.at == 0,
                SerialState::Done(out) => root@.reached(name@, None).len() == 0 && out == Ok::<
                    Json,
                    Error,
                >(payload),
            },
    {
        Serial::start(self.listeners(root, name), payload)
    }

    /// First-bail-wins dispatch: the same as [`Context::serial`].
    pub fn bail(&self, root: &RootState, name: &str, payload: Json) -> (res: SerialState)
        requires
            root.wf(),
        ensures
            match res {
                SerialState::Waiting(s) => s.wf() && s.listeners@ == root@.reached(name@, None)
                    && s.payload == payload && s.at == 0,
                SerialState::Done(out) => root@.reached(name@, None).len() == 0 && out == Ok::<
                    Json,
                    Error,
                >(payload),
            },
    {
        self.serial(root, name, payload)
    }

    /// Compose the listeners around a built-in fallback, outermost first.
    pub fn waterfall(&self, root: &RootState, name: &str, payload: Json, fallback: u64) -> (res:
        NextCall)
        requires
            root.wf(),
        ensures
            res@ == root@.chain(name@, Some(fallback), *self).run(payload),
    {
        self.pass(root, name, payload, Some(fallback))
    }

    /// Have the listeners pass `payload` on, outermost first; without a
    /// fallback the last of them ends the chain.
    pub fn pass(&self, root: &RootState, name: &str, payload: Json, fallback: Option<u64>) -> (res:
        NextCall)
        requires
            root.wf(),
        ensures
            res@ == root@.chain(name@, fallback, *self).run(payload),
    {
        waterfall(self.clone(), &self.listeners(root, name), payload, fallback)
    }
}

/// A dispatch from any context reaches what is registered under the name of the
/// event at that moment: every listener, in order, where it is not restricted
/// to a scope, and nobody where nothing is registered.
pub proof fn law_dispatch_reaches_what_is_registered(
    root: RootView,
    name: Seq<char>,
    filter: Option<(Seq<char>, u64)>,
    i: int,
)
    ensures
        !root.hooks.contains_key(name) ==> root.reached(name, filter).len() == 0,
        root.hooks.contains_key(name) ==> root.reached(name, filter) == deliveries(
            root.hooks[name],
            filter,
        ),
        root.hooks.contains_key(name) ==> root.reached(name, None).len() == root.hooks[name].len(),
        root.hooks.contains_key(name) && 0 <= i < root.hooks[name].len() ==> root.reached(
            name,
            None,
        )[i] == (Delivery {
            ctx: root.hooks[name][i].ctx,
            callback: root.hooks[name][i].callback,
            sync: root.hooks[name][i].sync,
        }),
{
    if root.hooks.contains_key(name) && 0 <= i < root.hooks[name].len() {
        law_scoped_dispatch(root.hooks[name], root.hooks[name][i], None);
    } else if root.hooks.contains_key(name) && root.hooks[name].len() > 0 {
        law_scoped_dispatch(root.hooks[name], root.hooks[name][0], None);
    }
}

} // verus!
