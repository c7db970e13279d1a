//! Effects: what a fiber registers while it runs, and how it is undone.
//!
//! Providing a service and listening to an event are effects like any other,
//! so that they end with the fiber that owns them.

use vstd::prelude::*;
use vstd::string::*;

use crate::context::Context;
use crate::drive::lemma_quiet_update;
use crate::error::{CordisCode, CordisError, Error};
use crate::events::{has_callback, hooks_of, with_hook, without_callback, Hook};
use crate::fiber::{effect_at, has_effect, without_effect, Disposer, DisposerView, FiberView};
use crate::handle::timed_out_text;
use crate::resolve::{missing_text, notice_fits, unprovided_text, Notice, NoticeView};
use crate::root::{RootState, RootView};
use crate::service::ServiceImpl;
use crate::text::join3;

verus! {

/// Guard for eager disposal of one effect; disposing is single-shot.
#[derive(Debug, Clone, Copy, PartialEq, Eq, Structural)]
pub struct EffectGuard {
    pub fiber: usize,
    pub id: u64,
}

/// A service that has just been registered: the guard of the effect, and who
/// has to hear of it.
pub struct Registered {
    pub guard: EffectGuard,
    pub notice: Notice,
}

/// What is left to do of a disposer.
pub enum Undo {
    Done,
    /// Dependents have to hear of the withdrawal.
    Notify(Notice),
    /// The cleanup routine with this number has to run.
    Task(u64),
}

/// An [`Undo`] as it is spoken of.
pub enum UndoView {
    Done,
    Notify(NoticeView),
    Task(u64),
}

impl View for Undo {
    type V = UndoView;

    open spec fn view(&self) -> UndoView {
        match *self {
            Undo::Done => UndoView::Done,
            Undo::Notify(notice) => UndoView::Notify(notice@),
            Undo::Task(task) => UndoView::Task(task),
        }
    }
}

/// Why an effect cannot be created.
pub enum Refusal {
    /// The context has no fiber.
    Unbound,
    /// The fiber is disposed or unloading.
    Inactive,
    /// The scope has an implementation of the service already.
    Duplicate,
}

/// The text of the error for `op` on a context without a fiber.
pub open spec fn unbound_text(op: Seq<char>) -> Seq<char> {
    "cannot "@ + op + " on this context: no active fiber is bound"@
}

/// The text of the error for a second implementation in one scope.
pub open spec fn duplicate_text(name: Seq<char>) -> Seq<char> {
    "service \""@ + name + "\" has been registered in this scope"@
}

/// The label of an effect created through the method `op` for `name`.
pub open spec fn effect_label(op: Seq<char>, name: Seq<char>) -> Seq<char> {
    "ctx."@ + op + "("@ + name + ")"@
}

/// `error` says that `op` on `name` was refused for this reason.
pub open spec fn reports(error: Error, refusal: Refusal, op: Seq<char>, name: Seq<char>) -> bool {
    match refusal {
        Refusal::Unbound => error is Other && error.text() == unbound_text(op),
        Refusal::Inactive => error matches Error::Coded(e) && e.code == CordisCode::InactiveEffect
            && e.message@ == CordisCode::InactiveEffect.text(),
        Refusal::Duplicate => error matches Error::Coded(e) && e.code
            == CordisCode::DuplicateService && e.message@ == duplicate_text(name),
    }
}

impl RootView {
    /// Why `ctx` cannot create effects.
    pub open spec fn effect_refusal(self, ctx: Context) -> Option<Refusal> {
        match ctx.fiber {
            Some(f) => if self.fibers[f as int].accepts_effects() {
                None
            } else {
                Some(Refusal::Inactive)
            },
            None => Some(Refusal::Unbound),
        }
    }

    /// Why `ctx` cannot provide `name`.
    pub open spec fn provide_refusal(self, ctx: Context, name: Seq<char>) -> Option<Refusal> {
        match ctx.fiber {
            Some(f) => if self.fibers[f as int].uid is None {
                Some(Refusal::Inactive)
            } else if self.visible(ctx, name) is Some {
                Some(Refusal::Duplicate)
            } else {
                self.effect_refusal(ctx)
            },
            None => Some(Refusal::Unbound),
        }
    }

    /// One effect registered on `f`.
    pub open spec fn with_effect(
        self,
        f: int,
        label: Seq<char>,
        disposer: Option<DisposerView>,
    ) -> RootView {
        self.with_fiber(f, self.fibers[f].with_effect(label, disposer))
    }

    /// `name` registered by the method `op` of `ctx`, as an effect of its
    /// fiber.
    pub open spec fn registered(
        self,
        ctx: Context,
        op: Seq<char>,
        name: Seq<char>,
        service: ServiceImpl,
    ) -> RootView {
        (RootView {
            services: self.services.insert((name, ctx.label_of(name)), service),
            ..self
        }).with_effect(
            ctx.fiber.unwrap() as int,
            effect_label(op, name),
            Some(DisposerView::Withdraw { ctx, name }),
        )
    }

    /// A listener added, as an effect of the fiber of its context.
    pub open spec fn listening(self, name: Seq<char>, hook: Hook) -> RootView {
        (RootView {
            hooks: self.hooks.insert(name, with_hook(hooks_of(self.hooks, name), hook)),
            ..self
        }).with_effect(
            hook.ctx.fiber.unwrap() as int,
            effect_label("on"@, name),
            Some(DisposerView::Unhook { event: name, callback: hook.callback }),
        )
    }

    /// What a disposer undoes at once.
    pub open spec fn undone(self, disposer: DisposerView) -> RootView {
        match disposer {
            DisposerView::Withdraw { ctx, name } => RootView {
                services: self.services.remove((name, ctx.label_of(name))),
                ..self
            },
            DisposerView::Unhook { event, callback } => if has_callback(
                hooks_of(self.hooks, event),
                callback,
            ) {
                RootView {
                    hooks: self.hooks.insert(
                        event,
                        without_callback(hooks_of(self.hooks, event), callback),
                    ),
                    ..self
                }
            } else {
                self
            },
            DisposerView::Task(_) => self,
        }
    }

    /// What is left to do of a disposer, once that is undone.
    pub open spec fn left_of(self, disposer: DisposerView) -> UndoView {
        match disposer {
            DisposerView::Withdraw { ctx, name } => UndoView::Notify(
                self.undone(disposer).notice(ctx, name),
            ),
            DisposerView::Unhook { .. } => UndoView::Done,
            DisposerView::Task(task) => UndoView::Task(task),
        }
    }
}

/// The outcome of registering `service` through the method `op` of `ctx`: it
/// is registered for the fiber of `ctx`, or refused with nothing changed.
pub open spec fn registers(
    before: RootView,
    after: RootView,
    ctx: Context,
    op: Seq<char>,
    name: Seq<char>,
    service: ServiceImpl,
    outcome: Result<Registered, Error>,
) -> bool {
    match before.provide_refusal(ctx, name) {
        None => {
            let owner = before.fibers[ctx.fiber.unwrap() as int];
            let entry = ServiceImpl { provider_uid: owner.uid.unwrap(), ..service };
            &&& after == before.registered(ctx, op, name, entry)
            &&& outcome matches Ok(registered)
            &&& registered.guard.fiber == ctx.fiber.unwrap()
            &&& registered.guard.id == owner.next_effect_id
            &&& registered.notice@ == after.notice(ctx, name)
            &&& notice_fits(registered.notice@, after.fibers.len())
        },
        Some(refusal) => after == before && (outcome matches Err(error) && reports(
            error,
            refusal,
            op,
            name,
        )),
    }
}

/// The outcome of adding `hook` to the event `name`: it is registered for the
/// fiber of its context, or refused with nothing changed.
pub open spec fn listens(
    before: RootView,
    after: RootView,
    name: Seq<char>,
    hook: Hook,
    outcome: Result<EffectGuard, Error>,
) -> bool {
    match before.effect_refusal(hook.ctx) {
        None => {
            &&& after == before.listening(name, hook)
            &&& outcome matches Ok(guard)
            &&& guard.fiber == hook.ctx.fiber.unwrap()
            &&& guard.id == before.fibers[hook.ctx.fiber.unwrap() as int].next_effect_id
        },
        Some(refusal) => after == before && (outcome matches Err(error) && reports(
            error,
            refusal,
            "effect"@,
            Seq::empty(),
        )),
    }
}

fn effect_label_text(op: &str, name: &str) -> (res: String)
    ensures
        res@ == effect_label(op@, name@),
{
    let mut res: String = join3("ctx.", op, "(");
    res.append(name);
    res.append(")");
    res
}

impl Context {
    /// The fiber of this context, or the error for `op` where it has none.
    pub fn require_fiber(&self, op: &str) -> (res: Result<usize, Error>)
        ensures
            self.fiber matches Some(f) ==> res == Ok::<usize, Error>(f),
            self.fiber is None ==> (res matches Err(error) && error is Other && error.text()
                == unbound_text(op@)),
    {
        match self.fiber {
            Some(f) => Ok(f),
            None => {
                let text: String = join3(
                    "cannot ",
                    op,
                    " on this context: no active fiber is bound",
                );
                Err(Error::msg(text.as_str()))
            },
        }
    }

    /// Ask to create an effect, ahead of its setup: the fiber that will own
    /// it.
    pub fn effect(&self, root: &RootState) -> (res: Result<usize, Error>)
        requires
            root.wf(),
            root.has_context(*self),
        ensures
            match root@.effect_refusal(*self) {
                None => self.fiber matches Some(f) && res == Ok::<usize, Error>(f),
                Some(refusal) => res matches Err(error) && reports(
                    error,
                    refusal,
                    "effect"@,
                    Seq::empty(),
                ),
            },
    {
        match self.require_fiber("effect") {
            Ok(f) => {
                assert(root@.fibers[f as int] == root.fibers@[f as int]@);
                match root.fibers[f].effect_allowed() {
                    Ok(()) => Ok(f),
                    Err(error) => Err(error),
                }
            },
            Err(error) => Err(error),
        }
    }

    fn register(
        &self,
        root: &mut RootState,
        op: &str,
        name: &str,
        service: ServiceImpl,
    ) -> (res: Result<Registered, Error>)
        requires
            old(root).wf(),
            old(root).has_context(*self),
        ensures
            final(root).wf(),
            final(root).has_context(*self),
            registers(
                old(root)@,
                final(root)@,
                *self,
                op@,
                name@,
                service,
                res,
            ),
    {
        let f: usize = match self.require_fiber(op) {
            Ok(f) => f,
            Err(error) => {
                return Err(error);
            },
        };
        assert(root@.fibers[f as int] == root.fibers@[f as int]@);
        let provider_uid: u64 = match root.fibers[f].uid {
            Some(uid) => uid,
            None => {
                return Err(Error::coded(CordisCode::InactiveEffect));
            },
        };
        let label: u64 = self.effective_label(name);
        // Validate before mutating, so that a refused effect leaves no residue.
        if root.get_impl(self, name, false).is_some() {
            let text: String = join3("service \"", name, "\" has been registered in this scope");
            return Err(
                Error::Coded(
                    CordisError::with_message(CordisCode::DuplicateService, text.as_str()),
                ),
            );
        }
        match root.fibers[f].effect_allowed() {
            Ok(()) => {},
            Err(error) => {
                return Err(error);
            },
        }
        let ghost before = *root;
        let entry: ServiceImpl = ServiceImpl {
            value: service.value,
            provider_uid,
            check: service.check,
            compute: service.compute,
        };
        root.reflect.add(name, label, entry);
        proof {
            assert(root@ =~= (RootView {
                services: before@.services.insert((name@, label), entry),
                ..before@
            }));
        }
        let disposer: Disposer = Disposer::Withdraw {
            ctx: self.clone(),
            name: name.to_owned(),
        };
        let guard: EffectGuard = root.commit_effect(
            f,
            effect_label_text(op, name),
            Some(disposer),
        );
        let notice: Notice = root.notice(self, name);
        Ok(Registered { guard, notice })
    }

    /// Provide a service for as long as the fiber of this context runs.
    pub fn provide(&self, root: &mut RootState, name: &str, value: u64) -> (res: Result<
        Registered,
        Error,
    >)
        requires
            old(root).wf(),
            old(root).has_context(*self),
        ensures
            final(root).wf(),
            final(root).has_context(*self),
            registers(
                old(root)@,
                final(root)@,
                *self,
                "provide"@,
                name@,
                ServiceImpl { value, provider_uid: 0, check: None, compute: None },
                res,
            ),
    {
        self.register(
            root,
            "provide",
            name,
            ServiceImpl { value, provider_uid: 0, check: None, compute: None },
        )
    }

    /// Like [`Context::provide`], with an availability predicate that
    /// dependents consult.
    pub fn provide_with_check(
        &self,
        root: &mut RootState,
        name: &str,
        value: u64,
        check: u64,
    ) -> (res: Result<Registered, Error>)
        requires
            old(root).wf(),
            old(root).has_context(*self),
        ensures
            final(root).wf(),
            final(root).has_context(*self),
            registers(
                old(root)@,
                final(root)@,
                *self,
                "provide"@,
                name@,
                ServiceImpl { value, provider_uid: 0, check: Some(check), compute: None },
                res,
            ),
    {
        self.register(
            root,
            "provide",
            name,
            ServiceImpl { value, provider_uid: 0, check: Some(check), compute: None },
        )
    }

    /// Register a computed service: every read evaluates the producer anew.
    /// Its lifecycle is that of a provided service.
    pub fn accessor(&self, root: &mut RootState, name: &str, compute: u64) -> (res: Result<
        Registered,
        Error,
    >)
        requires
            old(root).wf(),
            old(root).has_context(*self),
        ensures
            final(root).wf(),
            final(root).has_context(*self),
            registers(
                old(root)@,
                final(root)@,
                *self,
                "accessor"@,
                name@,
                ServiceImpl { value: 0, provider_uid: 0, check: None, compute: Some(compute) },
                res,
            ),
    {
        self.register(
            root,
            "accessor",
            name,
            ServiceImpl { value: 0, provider_uid: 0, check: None, compute: Some(compute) },
        )
    }

    /// Register a listener, disposed of with the fiber of this context.
    pub fn on(&self, root: &mut RootState, name: &str, callback: u64) -> (res: Result<
        EffectGuard,
        Error,
    >)
        requires
            old(root).wf(),
            old(root).has_context(*self),
        ensures
            final(root).wf(),
            final(root).has_context(*self),
            listens(
                old(root)@,
                final(root)@,
                name@,
                Hook { ctx: *self, callback, prepend: false, global: false, sync: false },
                res,
            ),
    {
        self.on_with(root, name, callback, false, false, false)
    }

    /// Register a listener that comes first and ignores scope filters.
    pub fn on_global(&self, root: &mut RootState, name: &str, callback: u64) -> (res: Result<
        EffectGuard,
        Error,
    >)
        requires
            old(root).wf(),
            old(root).has_context(*self),
        ensures
            final(root).wf(),
            final(root).has_context(*self),
            listens(
                old(root)@,
                final(root)@,
                name@,
                Hook { ctx: *self, callback, prepend: true, global: true, sync: false },
                res,
            ),
    {
        self.on_with(root, name, callback, true, true, false)
    }

    /// Register a listener of the sync slot: `emit_sync` awaits it inline.
    pub fn on_sync(&self, root: &mut RootState, name: &str, callback: u64) -> (res: Result<
        EffectGuard,
        Error,
    >)
        requires
            old(root).wf(),
            old(root).has_context(*self),
        ensures
            final(root).wf(),
            final(root).has_context(*self),
            listens(
                old(root)@,
                final(root)@,
                name@,
                Hook { ctx: *self, callback, prepend: false, global: false, sync: true },
                res,
            ),
    {
        self.on_with(root, name, callback, false, false, true)
    }

    /// Register a listener with its place and reach spelled out.
    pub fn on_with(
        &self,
        root: &mut RootState,
        name: &str,
        callback: u64,
        prepend: bool,
        global: bool,
        sync: bool,
    ) -> (res: Result<EffectGuard, Error>)
        requires
            old(root).wf(),
            old(root).has_context(*self),
        ensures
            final(root).wf(),
            final(root).has_context(*self),
            listens(
                old(root)@,
                final(root)@,
                name@,
                Hook { ctx: *self, callback, prepend, global, sync },
                res,
            ),
    {
        let f: usize = match self.effect(root) {
            Ok(f) => f,
            Err(error) => {
                return Err(error);
            },
        };
        let ghost before = *root;
        root.events.register(
            name,
            Hook { ctx: self.clone(), callback, prepend, global, sync },
        );
        proof {
            assert(root@ =~= (RootView { hooks: root@.hooks, ..before@ }));
        }
        let guard: EffectGuard = root.commit_effect(
            f,
            effect_label_text("on", name),
            Some(Disposer::Unhook { event: name.to_owned(), callback }),
        );
        Ok(guard)
    }
}

impl RootState {
    /// Register an effect whose setup is done.
    pub fn commit_effect(&mut self, f: usize, label: String, disposer: Option<Disposer>) -> (res:
        EffectGuard)
        requires
            old(self).wf(),
            old(self).has_fiber(f),
        ensures
            final(self).wf(),
            final(self)@ == old(self)@.with_effect(
                f as int,
                label@,
                match disposer {
                    Some(d) => Some(d@),
                    None => None,
                },
            ),
            res.fiber == f,
            res.id == old(self)@.fibers[f as int].next_effect_id,
    {
        let ghost before = *self;
        assert(self@.fibers[f as int] == self.fibers@[f as int]@);
        let id: u64 = self.fibers[f].register_effect(label, disposer);
        proof {
            lemma_quiet_update(before, *self, f as int);
        }
        EffectGuard { fiber: f, id }
    }

    /// Perform what a disposer does at once, and say what is left to do.
    pub fn undo(&mut self, disposer: Disposer) -> (res: Undo)
        requires
            old(self).wf(),
        ensures
            final(self).wf(),
            final(self)@ == old(self)@.undone(disposer@),
            res@ == old(self)@.left_of(disposer@),
            res matches Undo::Notify(notice) ==> notice_fits(notice@, final(self)@.fibers.len()),
    {
        let ghost before = *self;
        match disposer {
            Disposer::Withdraw { ctx, name } => {
                let label: u64 = ctx.effective_label(name.as_str());
                self.reflect.remove(name.as_str(), label);
                proof {
                    assert(self@ =~= (RootView {
                        services: before@.services.remove((name@, label)),
                        ..before@
                    }));
                }
                Undo::Notify(self.notice(&ctx, name.as_str()))
            },
            Disposer::Unhook { event, callback } => {
                let removed: bool = self.events.unregister(event.as_str(), callback);
                proof {
                    assert(self@ =~= (RootView { hooks: self@.hooks, ..before@ }));
                    assert(self@ =~= before@.undone(disposer@));
                }
                Undo::Done
            },
            Disposer::Task(task) => Undo::Task(task),
        }
    }
}

impl EffectGuard {
    /// Dispose of the effect ahead of its fiber: what has to be undone.
    /// Nothing where the effect is not live any more.
    pub fn dispose(&self, root: &mut RootState) -> (res: Option<Disposer>)
        requires
            old(root).wf(),
            old(root).has_fiber(self.fiber),
        ensures
            final(root).wf(),
            final(root)@ == old(root)@.with_fiber(
                self.fiber as int,
                FiberView {
                    effects: without_effect(
                        old(root)@.fibers[self.fiber as int].effects,
                        self.id,
                    ),
                    ..old(root)@.fibers[self.fiber as int]
                },
            ),
            match res {
                Some(d) => exists|i: int| #[trigger]
                    effect_at(old(root)@.fibers[self.fiber as int].effects, i, self.id) && old(
                        root,
                    )@.fibers[self.fiber as int].effects[i].unwrap().disposer == d@,
                None => !has_effect(old(root)@.fibers[self.fiber as int].effects, self.id),
            },
    {
        let ghost before = *root;
        let disposer: Option<Disposer> = root.fibers[self.fiber].take_effect(self.id);
        proof {
            lemma_quiet_update(before, *root, self.fiber as int);
            assert(before@.fibers[self.fiber as int] == before.fibers@[self.fiber as int]@);
        }
        disposer
    }

    /// The effect has not been disposed of.
    pub fn is_live(&self, root: &RootState) -> (res: bool)
        requires
            root.wf(),
            root.has_fiber(self.fiber),
        ensures
            res == has_effect(root@.fibers[self.fiber as int].effects, self.id),
    {
        assert(root@.fibers[self.fiber as int] == root.fibers@[self.fiber as int]@);
        root.fibers[self.fiber].is_live(self.id)
    }
}

/// What refusals and effects are called, whatever the operation and the service.
pub proof fn law_refusals_name_what_was_refused(op: Seq<char>, name: Seq<char>)
    ensures
        unbound_text(op) == "cannot "@ + op + " on this context: no active fiber is bound"@,
        duplicate_text(name) == "service \""@ + name + "\" has been registered in this scope"@,
        effect_label(op, name) == "ctx."@ + op + "("@ + name + ")"@,
        unprovided_text(name) == "cannot set property \""@ + name + "\" without provide"@,
        missing_text(name) == "cannot get property \""@ + name + "\" without inject"@,
        timed_out_text(name) == "join(\""@ + name + "\") timed out"@,
{
}

} // verus!
