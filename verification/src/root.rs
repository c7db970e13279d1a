//! The state shared by every context of one root.

use std::collections::HashMap;

use vstd::prelude::*;

use crate::context::{Context, ScopeNode, ScopeRule, DEFAULT_LABEL};
use crate::events::{
    deliveries, filter_view, hooks_of, Delivery, EventStore, Hook, ScopeFilter,
};
use crate::fiber::{Fiber, FiberState, FiberView};
use crate::json::Json;
use crate::lifecycle::fresh_fiber;
use crate::logger::LogLevel;
use crate::service::{ReflectStore, ServiceImpl, Services};
use crate::text::texts;

verus! {

/// Observability events emitted by the kernel itself.
#[allow(inconsistent_fields)]
pub enum InternalEvent {
    /// A fiber went through a lifecycle transition.
    Status { fiber: String, uid: Option<u64>, state: FiberState },
    /// A plugin fiber was created.
    PluginCreated { fiber: String, uid: u64, inject: Vec<String> },
    /// A fiber was disposed of.
    PluginDisposed { fiber: String, uid: u64 },
    /// The availability of a service may have changed.
    Service { service: String },
}

/// An [`InternalEvent`] as it is spoken of.
#[allow(inconsistent_fields)]
pub enum InternalEventView {
    Status { fiber: Seq<char>, uid: Option<u64>, state: FiberState },
    PluginCreated { fiber: Seq<char>, uid: u64, inject: Seq<Seq<char>> },
    PluginDisposed { fiber: Seq<char>, uid: u64 },
    Service { service: Seq<char> },
}

impl View for InternalEvent {
    type V = InternalEventView;

    open spec fn view(&self) -> InternalEventView {
        match *self {
            InternalEvent::Status { fiber, uid, state } => InternalEventView::Status {
                fiber: fiber@,
                uid,
                state,
            },
            InternalEvent::PluginCreated { fiber, uid, inject } =>
                InternalEventView::PluginCreated { fiber: fiber@, uid, inject: texts(inject@) },
            InternalEvent::PluginDisposed { fiber, uid } => InternalEventView::PluginDisposed {
                fiber: fiber@,
                uid,
            },
            InternalEvent::Service { service } => InternalEventView::Service { service: service@ },
        }
    }
}

impl InternalEventView {
    /// The name under which listeners hear of the event.
    pub open spec fn name(self) -> Seq<char> {
        match self {
            InternalEventView::Status { .. } => "internal/status"@,
            InternalEventView::PluginCreated { .. } => "internal/plugin"@,
            InternalEventView::PluginDisposed { .. } => "internal/plugin"@,
            InternalEventView::Service { .. } => "internal/service"@,
        }
    }
}

impl InternalEvent {
    pub fn name(&self) -> (res: &'static str)
        ensures
            res@ == self@.name(),
            match *self {
                InternalEvent::Status { .. } => res@ == "internal/status"@,
                InternalEvent::PluginCreated { .. } => res@ == "internal/plugin"@,
                InternalEvent::PluginDisposed { .. } => res@ == "internal/plugin"@,
                InternalEvent::Service { .. } => res@ == "internal/service"@,
            },
    {
        match self {
            InternalEvent::Status { .. } => "internal/status",
            InternalEvent::PluginCreated { .. } => "internal/plugin",
            InternalEvent::PluginDisposed { .. } => "internal/plugin",
            InternalEvent::Service { .. } => "internal/service",
        }
    }
}

/// Work that a transition leaves to whoever runs the kernel, in order.
pub enum Command {
    /// Start the driver of this fiber.
    Drive(usize),
    /// Wake whoever waits for this fiber to settle.
    Settle(usize),
    /// Call these listeners with the event, without waiting for them. What
    /// fails is logged by the logger that `ctx` sees.
    Emit { ctx: Context, event: InternalEvent, deliveries: Vec<Delivery> },
    /// Have the logger that `ctx` sees write a structured record.
    Log {
        ctx: Context,
        level: LogLevel,
        topic: String,
        code: Option<String>,
        message: String,
    },
}

/// A [`Command`] as it is spoken of.
pub enum CommandView {
    Drive(int),
    Settle(int),
    Emit { ctx: Context, event: InternalEventView, deliveries: Seq<Delivery> },
    Log {
        ctx: Context,
        level: LogLevel,
        topic: Seq<char>,
        code: Option<Seq<char>>,
        message: Seq<char>,
    },
}

impl View for Command {
    type V = CommandView;

    open spec fn view(&self) -> CommandView {
        match *self {
            Command::Drive(fiber) => CommandView::Drive(fiber as int),
            Command::Settle(fiber) => CommandView::Settle(fiber as int),
            Command::Emit { ctx, event, deliveries } => CommandView::Emit {
                ctx,
                event: event@,
                deliveries: deliveries@,
            },
            Command::Log { ctx, level, topic, code, message } => CommandView::Log {
                ctx,
                level,
                topic: topic@,
                code: match code {
                    Some(c) => Some(c@),
                    None => None,
                },
                message: message@,
            },
        }
    }
}

/// Shared record for one plugin across all its fibers.
pub struct Runtime {
    pub name: String,
    /// Running fibers, oldest first.
    pub fibers: Vec<usize>,
}

/// A [`Runtime`] as it is spoken of.
pub struct RuntimeView {
    pub name: Seq<char>,
    pub fibers: Seq<usize>,
}

impl View for Runtime {
    type V = RuntimeView;

    open spec fn view(&self) -> RuntimeView {
        RuntimeView { name: self.name@, fibers: self.fibers@ }
    }
}

/// State shared by every context derived from one root.
pub struct RootState {
    /// Distinguishes roots.
    pub id: u64,
    /// Plugins with running fibers, by plugin key.
    pub registry: HashMap<u64, Runtime>,
    pub reflect: ReflectStore,
    pub events: EventStore,
    /// Every fiber ever created, by uid; the root fiber comes first.
    pub fibers: Vec<Fiber>,
    pub label_seed: u64,
    pub scope_seed: u64,
    /// Bit `uid` is set exactly while that fiber is active.
    pub active_fibers: u64,
    pub outbox: Vec<Command>,
}

/// A [`RootState`] as it is spoken of.
#[verifier::ext_equal]
pub struct RootView {
    pub id: u64,
    pub registry: Map<u64, RuntimeView>,
    pub services: Services,
    pub hooks: Map<Seq<char>, Seq<Hook>>,
    pub fibers: Seq<FiberView>,
    pub label_seed: u64,
    pub scope_seed: u64,
    pub outbox: Seq<CommandView>,
}

impl View for RootState {
    type V = RootView;

    open spec fn view(&self) -> RootView {
        RootView {
            id: self.id,
            registry: self.registry@.map_values(|r: Runtime| r@),
            services: self.reflect@,
            hooks: self.events@,
            fibers: self.fibers@.map_values(|f: Fiber| f@),
            label_seed: self.label_seed,
            scope_seed: self.scope_seed,
            outbox: self.outbox@.map_values(|c: Command| c@),
        }
    }
}

// ---------------------------------------------------------------------------
// The active-fiber bitmask
// ---------------------------------------------------------------------------

/// Bit `i` of `mask` is set.
pub open spec fn bit(mask: u64, i: u64) -> bool {
    mask & (1u64 << i) != 0
}

pub proof fn lemma_set_bit(mask: u64, at: u64, i: u64)
    requires
        at < 64,
        i < 64,
    ensures
        bit(mask | (1u64 << at), i) == (i == at || bit(mask, i)),
{
    assert((mask | (1u64 << at)) & (1u64 << i) != 0 <==> (i == at || mask & (1u64 << i) != 0))
        by (bit_vector)
        requires
            at < 64,
            i < 64,
    ;
}

pub proof fn lemma_clear_bit(mask: u64, at: u64, i: u64)
    requires
        at < 64,
        i < 64,
    ensures
        bit(mask & !(1u64 << at), i) == (i != at && bit(mask, i)),
{
    assert((mask & !(1u64 << at)) & (1u64 << i) != 0 <==> (i != at && mask & (1u64 << i) != 0))
        by (bit_vector)
        requires
            at < 64,
            i < 64,
    ;
}

impl FiberView {
    /// The fiber is running its plugin with all effects live.
    pub open spec fn is_up(self) -> bool {
        self.uid is Some && self.state == FiberState::Active
    }
}

/// The bitmask mirrors which of the first fibers are active.
pub open spec fn bits_wf(mask: u64, fibers: Seq<FiberView>) -> bool {
    forall|i: u64|
        i < 64 ==> #[trigger] bit(mask, i) == (i < fibers.len() && fibers[i as int].is_up())
}

// ---------------------------------------------------------------------------
// Well-formedness
// ---------------------------------------------------------------------------

/// Uids are positions; every fiber knows its own context and, but for the
/// root fiber, its plugin. The root fiber requires nothing.
pub open spec fn fibers_wf(fibers: Seq<FiberView>) -> bool {
    &&& fibers.len() >= 1
    &&& fibers[0].runtime is None
    &&& fibers[0].inject.len() == 0
    &&& forall|i: int|
        0 <= i < fibers.len() ==> {
            &&& (#[trigger] fibers[i]).uid is Some ==> fibers[i].uid == Some(i as u64)
            &&& fibers[i].ctx.fiber == Some(i as usize)
            &&& i > 0 ==> fibers[i].runtime is Some
        }
}

/// `i` is a running fiber of the plugin `key`.
pub open spec fn runs(fibers: Seq<FiberView>, i: int, key: u64) -> bool {
    0 <= i < fibers.len() && fibers[i].uid is Some && fibers[i].runtime == Some(key)
}

/// The registry lists exactly the running fibers, each once, under their
/// plugins, and no plugin without a running fiber.
pub open spec fn registry_wf(registry: Map<u64, RuntimeView>, fibers: Seq<FiberView>) -> bool {
    &&& forall|key: u64, i: usize|
        #![trigger registry[key].fibers.contains(i)]
        registry.contains_key(key) && registry[key].fibers.contains(i) ==> runs(
            fibers,
            i as int,
            key,
        )
    &&& forall|i: usize, key: u64| #[trigger]
        runs(fibers, i as int, key) ==> registry.contains_key(key) && registry[key].fibers.contains(
            i,
        )
    &&& forall|key: u64|
        registry.contains_key(key) ==> (#[trigger] registry[key]).fibers.no_duplicates()
            && registry[key].fibers.len() > 0
}

/// Every fiber is sound.
pub open spec fn all_sound(fibers: Seq<FiberView>) -> bool {
    forall|i: int| 0 <= i < fibers.len() ==> (#[trigger] fibers[i]).sound()
}

/// Changing one fiber soundly leaves all fibers sound.
pub proof fn lemma_all_sound(before: Seq<FiberView>, after: Seq<FiberView>, f: int)
    requires
        all_sound(before),
        after.len() == before.len(),
        forall|i: int| 0 <= i < before.len() && i != f ==> #[trigger] after[i] == before[i],
        0 <= f < after.len() ==> after[f].sound(),
    ensures
        all_sound(after),
{
}

impl RootState {
    /// Everything but the agreement of the registry with the fibers.
    pub open spec fn core_wf(&self) -> bool {
        &&& self.reflect.wf()
        &&& self.events.wf()
        &&& forall|i: int| 0 <= i < self.fibers@.len() ==> (#[trigger] self.fibers@[i]).wf()
        &&& fibers_wf(self@.fibers)
        &&& forall|i: int|
            0 <= i < self@.fibers.len() ==> self.has_context((#[trigger] self@.fibers[i]).ctx)
        &&& bits_wf(self.active_fibers, self@.fibers)
    }

    /// Everything but what holds of fibers between transitions.
    pub open spec fn tidy(&self) -> bool {
        &&& self.core_wf()
        &&& registry_wf(self@.registry, self@.fibers)
    }

    pub open spec fn wf(&self) -> bool {
        &&& self.tidy()
        &&& all_sound(self@.fibers)
    }

    /// `f` is one of the fibers.
    pub open spec fn has_fiber(&self, f: usize) -> bool {
        f < self.fibers@.len()
    }

    /// The context belongs to this root.
    pub open spec fn has_context(&self, ctx: Context) -> bool {
        &&& ctx.root == self.id
        &&& ctx.scope.id < self.scope_seed
        &&& ctx.fiber matches Some(f) ==> f < self.fibers@.len()
    }
}

// ---------------------------------------------------------------------------
// Elementary transitions
// ---------------------------------------------------------------------------

impl RootView {
    pub open spec fn with_fiber(self, f: int, fiber: FiberView) -> RootView {
        RootView { fibers: self.fibers.update(f, fiber), ..self }
    }

    pub open spec fn post(self, command: CommandView) -> RootView {
        RootView { outbox: self.outbox.push(command), ..self }
    }

    /// The listeners of `name` that a dispatch reaches now.
    pub open spec fn reached(self, name: Seq<char>, filter: Option<(Seq<char>, u64)>) -> Seq<
        Delivery,
    > {
        deliveries(hooks_of(self.hooks, name), filter)
    }

    /// An event emitted from `ctx`.
    pub open spec fn emitted(
        self,
        ctx: Context,
        event: InternalEventView,
        filter: Option<(Seq<char>, u64)>,
    ) -> RootView {
        self.post(CommandView::Emit { ctx, event, deliveries: self.reached(event.name(), filter) })
    }

    pub open spec fn status(self, f: int) -> InternalEventView {
        InternalEventView::Status {
            fiber: self.fibers[f].name,
            uid: self.fibers[f].uid,
            state: self.fibers[f].state,
        }
    }

    /// The state of `f` announced to observers.
    pub open spec fn published(self, f: int) -> RootView {
        self.emitted(self.fibers[f].ctx, self.status(f), None)
    }

    pub open spec fn settled(self, f: int) -> RootView {
        self.post(CommandView::Settle(f))
    }

    /// The state mirror of `f` republished.
    pub open spec fn cached(self, f: int) -> RootView {
        self.with_fiber(f, self.fibers[f].cached())
    }

    /// A transition of `f` made known: mirror, waiters, observers.
    pub open spec fn announced(self, f: int) -> RootView {
        self.cached(f).settled(f).published(f)
    }

    /// The fiber `uid` is up; the root fiber always counts as active.
    pub open spec fn provider_live(self, uid: u64) -> bool {
        uid == 0 || (uid < self.fibers.len() && self.fibers[uid as int].is_up())
    }
}

/// The built-in logger, provided by the root fiber.
pub open spec fn builtin_logger(logger: u64) -> ServiceImpl {
    ServiceImpl { value: logger, provider_uid: 0, check: None, compute: None }
}

/// A root on which nothing has happened yet; `ctx` is its root context.
pub open spec fn fresh_root(id: u64, logger: u64, ctx: Context) -> RootView {
    RootView {
        id,
        registry: Map::empty(),
        services: Map::empty().insert(("logger"@, DEFAULT_LABEL), builtin_logger(logger)),
        hooks: Map::empty(),
        fibers: seq![
            fresh_fiber(0, None, "root"@, Seq::empty(), ctx, Json::Null, ":root"@),
        ],
        label_seed: 1,
        scope_seed: 1,
        outbox: Seq::empty(),
    }
}

impl Context {
    /// Create a root and its context. The logger service, whose value has the
    /// number `logger`, is provided by the root fiber, so that every plugin
    /// can log before anything else is provided.
    pub fn new(id: u64, logger: u64) -> (res: (RootState, Context))
        ensures
            res.0.wf(),
            res.0.has_context(res.1),
            res.1.root == id,
            *res.1.scope == (ScopeNode { id: 0, parent: None, rule: ScopeRule::Base }),
            res.1.fiber == Some(0usize),
            res.0@ == fresh_root(id, logger, res.1),
    {
        let ctx: Context = Context { root: id, scope: ScopeNode::root(), fiber: Some(0) };
        let mut reflect: ReflectStore = ReflectStore::new();
        reflect.add(
            "logger",
            DEFAULT_LABEL,
            ServiceImpl { value: logger, provider_uid: 0, check: None, compute: None },
        );
        let mut fibers: Vec<Fiber> = Vec::new();
        fibers.push(Fiber::new_root(ctx.clone()));
        let root: RootState = RootState {
            id,
            registry: HashMap::new(),
            reflect,
            events: EventStore::new(),
            fibers,
            label_seed: 1,
            scope_seed: 1,
            active_fibers: 1,
            outbox: Vec::new(),
        };
        proof {
            assert(root@ =~= fresh_root(id, logger, ctx));
            reveal_strlit(":root");
            assert(":root"@.len() == 5);
            assert forall|i: u64| i < 64 implies #[trigger] bit(root.active_fibers, i) == (i
                < root@.fibers.len() && root@.fibers[i as int].is_up()) by {
                assert(1u64 & (1u64 << i) != 0 <==> i == 0) by (bit_vector)
                    requires
                        i < 64,
                ;
            }
        }
        (root, ctx)
    }
}

impl RootState {
    /// Whether the fiber `uid` is active: the bitmask answers for the first
    /// fibers, the state mirror for the others. The root fiber always counts
    /// as active, since it owns the built-ins.
    pub fn fiber_is_active(&self, uid: u64) -> (res: bool)
        requires
            self.core_wf(),
        ensures
            res == self@.provider_live(uid),
            res == (uid == 0 || (uid < self@.fibers.len() && self@.fibers[uid as int].uid is Some
                && self@.fibers[uid as int].state == FiberState::Active)),
    {
        if uid == 0 {
            return true;
        }
        if uid < 64 {
            assert(bit(self.active_fibers, uid) == (uid < self@.fibers.len()
                && self@.fibers[uid as int].is_up()));
            return self.active_fibers & (1u64 << uid) != 0;
        }
        if uid < self.fibers.len() as u64 {
            let at: usize = uid as usize;
            assert(self@.fibers[at as int] == self.fibers@[at as int]@);
            self.fibers[at].uid.is_some() && self.fibers[at].state() == FiberState::Active
        } else {
            false
        }
    }

    /// Hand out what the transitions so far have left to do.
    pub fn take_outbox(&mut self) -> (res: Vec<Command>)
        requires
            old(self).wf(),
        ensures
            final(self).wf(),
            res@ == old(self).outbox@,
            final(self)@ == (RootView { outbox: Seq::empty(), ..old(self)@ }),
    {
        let ghost before = self@;
        let mut taken: Vec<Command> = Vec::new();
        std::mem::swap(&mut self.outbox, &mut taken);
        assert(self@ =~= (RootView { outbox: Seq::empty(), ..before }));
        taken
    }

    pub fn post(&mut self, command: Command)
        requires
            old(self).core_wf(),
        ensures
            final(self).core_wf(),
            final(self)@ == old(self)@.post(command@),
            final(self).fibers@ == old(self).fibers@,
    {
        let ghost before = self@;
        let ghost view = command@;
        self.outbox.push(command);
        assert(self@ =~= before.post(view));
    }

    /// Emit an event from `ctx`: the listeners are those registered now.
    pub fn emit(&mut self, ctx: Context, event: InternalEvent, filter: Option<ScopeFilter>)
        requires
            old(self).core_wf(),
        ensures
            final(self).core_wf(),
            final(self)@ == old(self)@.emitted(ctx, event@, filter_view(filter)),
            final(self).fibers@ == old(self).fibers@,
    {
        let deliveries: Vec<Delivery> = self.events.dispatch(event.name(), &filter);
        self.post(Command::Emit { ctx, event, deliveries });
    }

    /// Announce the state of `f` to observers.
    pub fn publish_state(&mut self, f: usize)
        requires
            old(self).core_wf(),
            old(self).has_fiber(f),
        ensures
            final(self).core_wf(),
            final(self)@ == old(self)@.published(f as int),
            final(self).fibers@ == old(self).fibers@,
    {
        let fiber: &Fiber = &self.fibers[f];
        let event: InternalEvent = InternalEvent::Status {
            fiber: fiber.name.clone(),
            uid: fiber.uid,
            state: fiber.state(),
        };
        let ctx: Context = fiber.ctx.clone();
        assert(event@ == self@.status(f as int));
        self.emit(ctx, event, None);
    }

    /// Wake whoever waits for `f` to settle.
    pub fn bump_settle(&mut self, f: usize)
        requires
            old(self).core_wf(),
        ensures
            final(self).core_wf(),
            final(self)@ == old(self)@.settled(f as int),
            final(self).fibers@ == old(self).fibers@,
    {
        self.post(Command::Settle(f));
    }
}

/// An event that the kernel emits is one more thing left to do, and nothing else:
/// it goes to the listeners that stand under its name at that moment and that
/// the filter lets pass.
pub proof fn law_emitting_leaves_one_command(
    root: RootView,
    ctx: Context,
    event: InternalEventView,
    filter: Option<(Seq<char>, u64)>,
)
    ensures
        ({
            let after = root.emitted(ctx, event, filter);
            let name = match event {
                InternalEventView::Status { .. } => "internal/status"@,
                InternalEventView::PluginCreated { .. } => "internal/plugin"@,
                InternalEventView::PluginDisposed { .. } => "internal/plugin"@,
                InternalEventView::Service { .. } => "internal/service"@,
            };
            let hooks = if root.hooks.contains_key(name) {
                root.hooks[name]
            } else {
                Seq::empty()
            };
            &&& after == (RootView { outbox: after.outbox, ..root })
            &&& after.outbox == root.outbox.push(
                CommandView::Emit { ctx, event, deliveries: deliveries(hooks, filter) },
            )
            &&& root.reached(name, filter) == deliveries(hooks, filter)
        }),
{
}

/// Telling observers of a fiber and waking those who wait for it leave one
/// command each, and nothing else.
pub proof fn law_announcing_changes_the_mirror_only(root: RootView, f: int)
    requires
        0 <= f < root.fibers.len(),
    ensures
        root.settled(f) == (RootView { outbox: root.outbox.push(CommandView::Settle(f)), ..root }),
        root.published(f).fibers == root.fibers,
        root.published(f).outbox.len() == root.outbox.len() + 1,
        root.published(f).outbox.last() matches CommandView::Emit { ctx, event, .. } && ctx
            == root.fibers[f].ctx && event == (InternalEventView::Status {
            fiber: root.fibers[f].name,
            uid: root.fibers[f].uid,
            state: root.fibers[f].state,
        }),
        root.cached(f).fibers[f] == (FiberView {
            state: root.cached(f).fibers[f].state,
            ..root.fibers[f]
        }),
        root.cached(f) == (RootView { fibers: root.cached(f).fibers, ..root }),
        forall|g: int|
            0 <= g < root.fibers.len() && g != f ==> #[trigger] root.cached(f).fibers[g]
                == root.fibers[g],
{
}

} // verus!
