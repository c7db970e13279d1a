//! Event hooks and the decisions of the dispatch modes.
//!
//! Listeners are named by the number of their callback. The store keeps them
//! in call order; each dispatch mode is a small machine that says whom to
//! call next and what the dispatch comes to, given what the listeners gave
//! back.

use vstd::prelude::*;
use vstd::string::*;

use crate::context::Context;
use crate::error::Error;
use crate::json::Json;
use crate::names::NameMap;
use crate::text::join3;

verus! {

/// One registered listener.
pub struct Hook {
    pub ctx: Context,
    pub callback: u64,
    pub prepend: bool,
    /// Global listeners ignore scope filters during dispatch.
    pub global: bool,
    /// Sync listeners are awaited inline by `emit_sync`.
    pub sync: bool,
}

/// One listener to be called, with the context it was registered on.
pub struct Delivery {
    pub ctx: Context,
    pub callback: u64,
    pub sync: bool,
}

impl Clone for Delivery {
    fn clone(&self) -> (res: Delivery)
        ensures
            res == *self,
    {
        Delivery { ctx: self.ctx.clone(), callback: self.callback, sync: self.sync }
    }
}

/// Restricts a dispatch to contexts where `name` has the isolation label
/// `label`.
pub struct ScopeFilter {
    pub name: String,
    pub label: u64,
}

/// A filter as it is spoken of: the name and the label.
pub open spec fn filter_view(filter: Option<ScopeFilter>) -> Option<(Seq<char>, u64)> {
    match filter {
        Some(f) => Some((f.name@, f.label)),
        None => None,
    }
}

/// Whether `hook` takes part in a dispatch restricted by `filter`.
pub open spec fn admits(filter: Option<(Seq<char>, u64)>, hook: Hook) -> bool {
    hook.global || match filter {
        Some((name, label)) => hook.ctx.label_of(name) == label,
        None => true,
    }
}

/// How `hook` is called.
pub open spec fn delivery_of(hook: Hook) -> Delivery {
    Delivery { ctx: hook.ctx, callback: hook.callback, sync: hook.sync }
}

/// The listeners of `hooks` that a dispatch reaches, in call order.
pub open spec fn deliveries(hooks: Seq<Hook>, filter: Option<(Seq<char>, u64)>) -> Seq<Delivery>
    decreases hooks.len(),
{
    if hooks.len() == 0 {
        Seq::empty()
    } else {
        let earlier = deliveries(hooks.drop_last(), filter);
        if admits(filter, hooks.last()) {
            earlier.push(delivery_of(hooks.last()))
        } else {
            earlier
        }
    }
}

/// `hooks` without the first hook of `callback`.
pub open spec fn without_callback(hooks: Seq<Hook>, callback: u64) -> Seq<Hook>
    decreases hooks.len(),
{
    if hooks.len() == 0 {
        hooks
    } else if hooks[0].callback == callback {
        hooks.drop_first()
    } else {
        seq![hooks[0]] + without_callback(hooks.drop_first(), callback)
    }
}

/// Whether a hook of `callback` is among `hooks`.
pub open spec fn has_callback(hooks: Seq<Hook>, callback: u64) -> bool {
    exists|i: int| 0 <= i < hooks.len() && (#[trigger] hooks[i]).callback == callback
}

/// `hooks` with `hook` added where it asks to be.
pub open spec fn with_hook(hooks: Seq<Hook>, hook: Hook) -> Seq<Hook> {
    if hook.prepend {
        seq![hook] + hooks
    } else {
        hooks.push(hook)
    }
}

/// Taking out the first hook of a callback is taking out its position.
pub proof fn lemma_without_first(hooks: Seq<Hook>, at: int, callback: u64)
    requires
        0 <= at < hooks.len(),
        hooks[at].callback == callback,
        forall|j: int| 0 <= j < at ==> (#[trigger] hooks[j]).callback != callback,
    ensures
        without_callback(hooks, callback) == hooks.remove(at),
    decreases hooks.len(),
{
    if at == 0 {
        assert(hooks.drop_first() =~= hooks.remove(0));
    } else {
        let rest = hooks.drop_first();
        assert(rest[at - 1] == hooks[at]);
        assert forall|j: int| 0 <= j < at - 1 implies (#[trigger] rest[j]).callback != callback by {
            assert(rest[j] == hooks[j + 1]);
        }
        lemma_without_first(rest, at - 1, callback);
        assert(seq![hooks[0]] + rest.remove(at - 1) =~= hooks.remove(at));
    }
}

/// Event store shared at the root; hooks are keyed by event name.
pub struct EventStore {
    pub hooks: NameMap<Vec<Hook>>,
}

impl View for EventStore {
    type V = Map<Seq<char>, Seq<Hook>>;

    open spec fn view(&self) -> Map<Seq<char>, Seq<Hook>> {
        self.hooks@.map_values(|list: Vec<Hook>| list@)
    }
}

/// The hooks of the event `name`, in call order.
pub open spec fn hooks_of(store: Map<Seq<char>, Seq<Hook>>, name: Seq<char>) -> Seq<Hook> {
    if store.contains_key(name) {
        store[name]
    } else {
        Seq::empty()
    }
}

impl EventStore {
    pub open spec fn wf(&self) -> bool {
        self.hooks.wf()
    }

    pub fn new() -> (res: EventStore)
        ensures
            res.wf(),
            res@ == Map::<Seq<char>, Seq<Hook>>::empty(),
    {
        let res: EventStore = EventStore { hooks: NameMap::new() };
        assert(res@ =~= Map::<Seq<char>, Seq<Hook>>::empty());
        res
    }

    /// The listeners of `name` that a dispatch restricted by `filter`
    /// reaches, in call order.
    pub fn dispatch(&self, name: &str, filter: &Option<ScopeFilter>) -> (res: Vec<Delivery>)
        requires
            self.wf(),
        ensures
            res@ == deliveries(hooks_of(self@, name@), filter_view(*filter)),
    {
        let mut res: Vec<Delivery> = Vec::new();
        if let Some(list) = self.hooks.get(name) {
            let ghost view = filter_view(*filter);
            let mut i: usize = 0;
            while i < list.len()
                invariant
                    i <= list@.len(),
                    view == filter_view(*filter),
                    res@ == deliveries(list@.take(i as int), view),
                decreases list@.len() - i,
            {
                let hook: &Hook = &list[i];
                let reached: bool = hook.global || match filter {
                    Some(f) => hook.ctx.effective_label(f.name.as_str()) == f.label,
                    None => true,
                };
                proof {
                    let next = list@.take(i + 1);
                    assert(next.drop_last() =~= list@.take(i as int));
                    assert(next.last() == *hook);
                }
                if reached {
                    res.push(
                        Delivery { ctx: hook.ctx.clone(), callback: hook.callback, sync: hook.sync },
                    );
                }
                i = i + 1;
            }
            assert(list@.take(list@.len() as int) =~= list@);
        }
        res
    }

    /// Add a listener: prepended ones are called before all others so far.
    pub fn register(&mut self, name: &str, hook: Hook)
        requires
            old(self).wf(),
        ensures
            final(self).wf(),
            final(self)@ == old(self)@.insert(name@, with_hook(hooks_of(old(self)@, name@), hook)),
    {
        let ghost before = self@;
        let mut list: Vec<Hook> = match self.hooks.remove(name) {
            Some(list) => list,
            None => Vec::new(),
        };
        assert(list@ =~= hooks_of(before, name@));
        if hook.prepend {
            list.insert(0, hook);
            assert(list@ =~= seq![hook] + hooks_of(before, name@));
        } else {
            list.push(hook);
        }
        let ghost added = list@;
        self.hooks.insert(name, list);
        assert(self@ =~= before.insert(name@, added));
    }

    /// Drop the first listener of `callback`; says whether there was one.
    pub fn unregister(&mut self, name: &str, callback: u64) -> (res: bool)
        requires
            old(self).wf(),
        ensures
            final(self).wf(),
            res == has_callback(hooks_of(old(self)@, name@), callback),
            res ==> final(self)@ == old(self)@.insert(
                name@,
                without_callback(hooks_of(old(self)@, name@), callback),
            ),
            !res ==> final(self)@ == old(self)@,
    {
        let ghost before = self@;
        let found: Option<usize> = match self.hooks.get(name) {
            Some(list) => callback_position(list, callback),
            None => None,
        };
        let at: usize = match found {
            Some(at) => at,
            None => {
                return false;
            },
        };
        if let Some(mut list) = self.hooks.remove(name) {
            let ghost all = list@;
            assert(all =~= hooks_of(before, name@));
            assert(all[at as int].callback == callback);
            proof {
                lemma_without_first(all, at as int, callback);
            }
            list.remove(at);
            assert(list@ =~= without_callback(all, callback));
            let ghost rest = list@;
            self.hooks.insert(name, list);
            assert(self@ =~= before.insert(name@, rest));
        }
        true
    }
}

/// Position of the first hook of `callback`.
fn callback_position(list: &Vec<Hook>, callback: u64) -> (res: Option<usize>)
    ensures
        match res {
            Some(at) => at < list@.len() && list@[at as int].callback == callback && forall|j: int|
                0 <= j < at ==> (#[trigger] list@[j]).callback != callback,
            None => !has_callback(list@, callback),
        },
{
    let mut i: usize = 0;
    while i < list.len()
        invariant
            i <= list@.len(),
            forall|j: int| 0 <= j < i ==> (#[trigger] list@[j]).callback != callback,
        decreases list@.len() - i,
    {
        if list[i].callback == callback {
            return Some(i);
        }
        i = i + 1;
    }
    None
}

/// A scoped dispatch reaches a listener exactly if it is global or its context
/// is in the scope, in the order in which the hooks stand.
pub proof fn law_scoped_dispatch(hooks: Seq<Hook>, hook: Hook, filter: Option<(Seq<char>, u64)>)
    ensures
        deliveries(hooks.push(hook), filter) == if admits(filter, hook) {
            deliveries(hooks, filter).push(delivery_of(hook))
        } else {
            deliveries(hooks, filter)
        },
        deliveries(hooks, None).len() == hooks.len(),
        forall|i: int|
            0 <= i < hooks.len() ==> #[trigger] deliveries(hooks, None)[i] == delivery_of(hooks[i]),
    decreases hooks.len(),
{
    assert(hooks.push(hook).drop_last() =~= hooks);
    if hooks.len() > 0 {
        law_scoped_dispatch(hooks.drop_last(), hook, filter);
    }
}

/// A dispatch is decided listener by listener, in the order in which they stand:
/// whom it reaches among two groups of listeners is whom it reaches among the
/// first and then whom it reaches among the second. A global listener is
/// reached by every dispatch, any other by one without a filter and by one
/// whose filter names the label to which its context resolves the name; it is
/// called with the context that it was registered on.
pub proof fn law_dispatch_decides_listener_by_listener(
    first: Seq<Hook>,
    second: Seq<Hook>,
    hook: Hook,
    name: Seq<char>,
    label: u64,
    filter: Option<(Seq<char>, u64)>,
)
    ensures
        deliveries(first + second, filter) == deliveries(first, filter) + deliveries(
            second,
            filter,
        ),
        deliveries(Seq::empty(), filter).len() == 0,
        deliveries(seq![hook], None) == seq![
            Delivery { ctx: hook.ctx, callback: hook.callback, sync: hook.sync },
        ],
        hook.global || hook.ctx.label_of(name) == label ==> deliveries(
            seq![hook],
            Some((name, label)),
        ) == seq![Delivery { ctx: hook.ctx, callback: hook.callback, sync: hook.sync }],
        !hook.global && hook.ctx.label_of(name) != label ==> deliveries(
            seq![hook],
            Some((name, label)),
        ).len() == 0,
{
    lemma_joined(first, second, filter);
    reveal_with_fuel(deliveries, 2);
    assert(seq![hook].drop_last() =~= Seq::<Hook>::empty());
}

proof fn lemma_joined(first: Seq<Hook>, second: Seq<Hook>, filter: Option<(Seq<char>, u64)>)
    ensures
        deliveries(first + second, filter) == deliveries(first, filter) + deliveries(
            second,
            filter,
        ),
    decreases second.len(),
{
    if second.len() == 0 {
        assert(first + second =~= first);
        assert(deliveries(first, filter) + deliveries(second, filter) =~= deliveries(
            first,
            filter,
        ));
    } else {
        assert((first + second).drop_last() =~= first + second.drop_last());
        lemma_joined(first, second.drop_last(), filter);
        assert(deliveries(first + second, filter) =~= deliveries(first, filter) + deliveries(
            second,
            filter,
        ));
    }
}

/// Whether a value stops serial/bail dispatch: anything but `null`/`false`.
pub fn is_bailed(value: &Json) -> (res: bool)
    ensures
        res == value.bails(),
        res == (*value != Json::Null && *value != Json::Bool(false)),
{
    match value {
        Json::Null => false,
        Json::Bool(flag) => *flag,
        _ => true,
    }
}

/// Log line for a listener that failed in a fire-and-forget dispatch.
pub fn listener_failure_line(event: &str, error: &Error) -> (res: String)
    ensures
        res@ == "["@ + event@ + "] listener failed: "@ + error.text(),
{
    let mut res: String = join3("[", event, "] listener failed: ");
    let text: String = error.render();
    res.append(text.as_str());
    res
}

} // verus!
