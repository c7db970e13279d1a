//! The driver of a fiber as a machine: it says what to perform, one thing at a
//! time, and is told what came of it.
//!
//! A driver that is not told to end keeps its fiber converging: it unloads
//! (disposers newest first), resolves the config, runs the plugin body and
//! tells the dependents, in this order, until the fiber has settled.

use vstd::prelude::*;

use crate::context::Context;
use crate::dispatch::NextCall;
use crate::drive::{DriveAction, DriveActionView};
use crate::effects::{EffectGuard, Undo, UndoView};
use crate::error::Error;
use crate::fiber::{
    disposal_order, disposers_view, effect_at, has_effect, without_effect, Disposer, DisposerView,
    FiberView,
};
use crate::json::Json;
use crate::reactivity::lemma_drivers_stay;
use crate::resolve::{notice_fits, Notice, NoticeView, Probe};
use crate::root::{RootState, RootView};
use crate::service::{keys_view, provides};

verus! {

/// What follows once the disposers at hand have run.
pub enum Afterwards {
    /// The fiber is unloaded; `forced` as the unload was.
    Unloaded { forced: bool },
    /// The startup that failed with this is over.
    Failed(Error),
    /// Nothing: the disposers were all there was to do.
    Nothing,
}

/// Where a driver stands.
pub enum Phase {
    /// It has to look at its fiber.
    Looking,
    /// It has disposers left to run.
    Disposing { left: Vec<Disposer>, after: Afterwards },
    /// A cleanup routine runs.
    Cleaning { left: Vec<Disposer>, after: Afterwards },
    /// Dependents of a withdrawn service are being asked for.
    Withdrawing { notice: Notice, left: Vec<Disposer>, after: Afterwards },
    /// The config is being resolved.
    Resolving { target: String },
    /// The plugin body runs.
    Applying { target: String },
    /// Dependents of these services have to be told, scope by scope.
    Broadcasting { services: Vec<(String, u64)> },
    /// Dependents of one of them are being asked for.
    Telling { notice: Notice, services: Vec<(String, u64)> },
    /// It is done.
    Ended,
}

/// A [`Phase`] as it is spoken of.
pub enum PhaseView {
    Looking,
    Disposing { left: Seq<DisposerView>, after: Afterwards },
    Cleaning { left: Seq<DisposerView>, after: Afterwards },
    Withdrawing { notice: NoticeView, left: Seq<DisposerView>, after: Afterwards },
    Resolving { target: Seq<char> },
    Applying { target: Seq<char> },
    Broadcasting { services: Seq<(Seq<char>, u64)> },
    Telling { notice: NoticeView, services: Seq<(Seq<char>, u64)> },
    Ended,
}

impl View for Phase {
    type V = PhaseView;

    open spec fn view(&self) -> PhaseView {
        match *self {
            Phase::Looking => PhaseView::Looking,
            Phase::Disposing { left, after } => PhaseView::Disposing {
                left: disposers_view(left@),
                after,
            },
            Phase::Cleaning { left, after } => PhaseView::Cleaning {
                left: disposers_view(left@),
                after,
            },
            Phase::Withdrawing { notice, left, after } => PhaseView::Withdrawing {
                notice: notice@,
                left: disposers_view(left@),
                after,
            },
            Phase::Resolving { target } => PhaseView::Resolving { target: target@ },
            Phase::Applying { target } => PhaseView::Applying { target: target@ },
            Phase::Broadcasting { services } => PhaseView::Broadcasting {
                services: keys_view(services@),
            },
            Phase::Telling { notice, services } => PhaseView::Telling {
                notice: notice@,
                services: keys_view(services@),
            },
            Phase::Ended => PhaseView::Ended,
        }
    }
}

/// What a driver is told.
pub enum Event {
    /// Go on.
    Go,
    /// The cleanup routine has run.
    Cleaned,
    /// The availability predicates answered so, probe by probe.
    Verdicts(Vec<bool>),
    /// The config hooks and the validation of the plugin came to this.
    Resolved(Result<Json, Error>),
    /// The plugin body came to this.
    Applied(Result<(), Error>),
}

/// What a driver wants performed.
pub enum Action {
    /// Nothing: tell it to go on.
    Continue,
    /// Run the cleanup routine with this number.
    Clean(u64),
    /// Ask the availability predicates of the probes at hand.
    Ask,
    /// Carry out the chain of config hooks from here, and have the plugin
    /// validate what it comes to.
    Resolve { call: NextCall },
    /// Run the plugin body with this config.
    Apply { config: Json },
    /// Nothing ever again.
    End,
}

/// Drives one fiber.
pub struct Driver {
    pub fiber: usize,
    pub phase: Phase,
}

impl PhaseView {
    /// What the driver can be told in this phase.
    pub open spec fn expects(self, event: Event) -> bool {
        match self {
            PhaseView::Looking | PhaseView::Disposing { .. } | PhaseView::Broadcasting { .. }
            | PhaseView::Ended => event is Go,
            PhaseView::Cleaning { .. } => event is Cleaned,
            PhaseView::Withdrawing { notice, .. } => event matches Event::Verdicts(v) && v@.len()
                == notice.probes.len(),
            PhaseView::Telling { notice, .. } => event matches Event::Verdicts(v) && v@.len()
                == notice.probes.len(),
            PhaseView::Resolving { .. } => event is Resolved,
            PhaseView::Applying { .. } => event is Applied,
        }
    }

    /// The driver is in the middle of work on its fiber, as opposed to looking
    /// for some, or to disposing of one effect and nothing else.
    pub open spec fn at_work(self) -> bool {
        match self {
            PhaseView::Disposing { after, .. } => !(after is Nothing),
            PhaseView::Cleaning { after, .. } => !(after is Nothing),
            PhaseView::Withdrawing { after, .. } => !(after is Nothing),
            PhaseView::Resolving { .. } | PhaseView::Applying { .. }
            | PhaseView::Broadcasting { .. } | PhaseView::Telling { .. } => true,
            PhaseView::Looking | PhaseView::Ended => false,
        }
    }

    /// The phase is one that the driver of `f` can be in: the fibers that it
    /// speaks of exist, and the root knows of a driver at work.
    pub open spec fn fits(self, root: RootView, f: int) -> bool {
        &&& self matches PhaseView::Withdrawing { notice, .. } ==> notice_fits(
            notice,
            root.fibers.len(),
        )
        &&& self matches PhaseView::Telling { notice, .. } ==> notice_fits(
            notice,
            root.fibers.len(),
        )
        &&& self.at_work() ==> root.fibers[f].running
    }
}

/// The disposers at hand have run: what becomes of the fiber.
pub open spec fn disposed_all(root: RootView, f: int, after: Afterwards) -> RootView {
    match after {
        Afterwards::Unloaded { forced } => root.unload_finished(f, forced),
        Afterwards::Failed(error) => root.load_failed(f, error),
        Afterwards::Nothing => root,
    }
}

/// One step of the driver of `f`: from where it stands and what it is told to
/// where it stands then, what it has done to the root, and what it wants
/// performed.
pub open spec fn steps(
    root: RootView,
    phase: PhaseView,
    event: Event,
    f: int,
    after_root: RootView,
    after_phase: PhaseView,
    action: Action,
) -> bool {
    match phase {
        PhaseView::Looking => {
            &&& after_root == root.driven(f)
            &&& match root.drive_action(f) {
                DriveActionView::Done => after_phase is Ended && action is End,
                DriveActionView::Again => after_phase is Looking && action is Continue,
                DriveActionView::Unload { forced, disposers } => after_phase
                    == (PhaseView::Disposing {
                    left: disposers,
                    after: Afterwards::Unloaded { forced },
                }) && action is Continue,
                DriveActionView::Load { target } => after_phase == (PhaseView::Resolving {
                    target,
                }) && (action matches Action::Resolve { call } && call@ == root.config_chain(
                    f,
                ).run(root.fibers[f].raw_config)),
            }
        },
        PhaseView::Disposing { left, after } => if left.len() == 0 {
            &&& after_root == disposed_all(root, f, after)
            &&& if after is Nothing {
                after_phase is Ended && action is End
            } else {
                after_phase is Looking && action is Continue
            }
        } else {
            let rest = left.drop_first();
            match root.left_of(left[0]) {
                UndoView::Done => {
                    &&& after_root == root.undone(left[0]).settled(f)
                    &&& after_phase == (PhaseView::Disposing { left: rest, after })
                    &&& action is Continue
                },
                UndoView::Task(task) => {
                    &&& after_root == root.undone(left[0])
                    &&& after_phase == (PhaseView::Cleaning { left: rest, after })
                    &&& action == Action::Clean(task)
                },
                UndoView::Notify(notice) => {
                    &&& after_root == root.undone(left[0])
                    &&& after_phase == (PhaseView::Withdrawing { notice, left: rest, after })
                    &&& action is Ask
                },
            }
        },
        PhaseView::Cleaning { left, after } => {
            &&& after_root == root.settled(f)
            &&& after_phase == (PhaseView::Disposing { left, after })
            &&& action is Continue
        },
        PhaseView::Withdrawing { notice, left, after } => {
            &&& event matches Event::Verdicts(verdicts)
            &&& after_root == root.notified(notice, verdicts@).settled(f)
            &&& after_phase == (PhaseView::Disposing { left, after })
            &&& action is Continue
        },
        PhaseView::Resolving { target } => match event {
            Event::Resolved(Ok(config)) => {
                &&& after_root == root.with_fiber(f, FiberView { config, ..root.fibers[f] })
                &&& after_phase == (PhaseView::Applying { target })
                &&& action == (Action::Apply { config })
            },
            Event::Resolved(Err(error)) => {
                &&& after_root == root.load_failed(f, error)
                &&& after_phase is Looking
                &&& action is Continue
            },
            _ => false,
        },
        PhaseView::Applying { target } => match event {
            Event::Applied(Ok(_)) => {
                &&& after_root == root.load_finished(f, target)
                &&& after_phase matches PhaseView::Broadcasting { services }
                &&& services.no_duplicates()
                &&& forall|key: (Seq<char>, u64)| #[trigger]
                    services.contains(key) <==> (root.fibers[f].uid matches Some(uid) && provides(
                        root.services,
                        uid,
                        key,
                    ))
                &&& action is Continue
            },
            Event::Applied(Err(error)) => {
                &&& after_root == root.with_fiber(
                    f,
                    FiberView { effects: Seq::empty(), ..root.fibers[f] },
                )
                &&& after_phase == (PhaseView::Disposing {
                    left: disposal_order(root.fibers[f].effects),
                    after: Afterwards::Failed(error),
                })
                &&& action is Continue
            },
            _ => false,
        },
        PhaseView::Broadcasting { services } => if services.len() == 0 {
            &&& after_root == root.settled(f).published(f)
            &&& after_phase is Looking
            &&& action is Continue
        } else {
            &&& after_root == root
            &&& after_phase == (PhaseView::Telling {
                notice: root.notice_at(root.fibers[f].ctx, services[0].0, services[0].1),
                services: services.drop_first(),
            })
            &&& action is Ask
        },
        PhaseView::Telling { notice, services } => {
            &&& event matches Event::Verdicts(verdicts)
            &&& after_root == root.notified(notice, verdicts@)
            &&& after_phase == (PhaseView::Broadcasting { services })
            &&& action is Continue
        },
        PhaseView::Ended => after_root == root && after_phase is Ended && action is End,
    }
}

impl Driver {
    /// The driver of a fiber that has been asked for something.
    pub fn new(fiber: usize) -> (res: Driver)
        ensures
            res.fiber == fiber,
            res.phase@ is Looking,
    {
        Driver { fiber, phase: Phase::Looking }
    }

    /// What undoes one effect ahead of its fiber. It ends at once where the
    /// effect is not live any more.
    pub fn for_effect(root: &mut RootState, guard: EffectGuard) -> (res: Driver)
        requires
            old(root).wf(),
            old(root).has_fiber(guard.fiber),
        ensures
            final(root).wf(),
            final(root)@ == old(root)@.with_fiber(
                guard.fiber as int,
                FiberView {
                    effects: without_effect(
                        old(root)@.fibers[guard.fiber as int].effects,
                        guard.id,
                    ),
                    ..old(root)@.fibers[guard.fiber as int]
                },
            ),
            res.fiber == guard.fiber,
            if has_effect(old(root)@.fibers[guard.fiber as int].effects, guard.id) {
                res.phase@ matches PhaseView::Disposing { left, after } && left.len() == 1 && after
                    is Nothing && exists|i: int| #[trigger]
                    effect_at(old(root)@.fibers[guard.fiber as int].effects, i, guard.id) && old(
                        root,
                    )@.fibers[guard.fiber as int].effects[i].unwrap().disposer == left[0]
            } else {
                res.phase@ is Ended
            },
    {
        match guard.dispose(root) {
            Some(disposer) => {
                let mut left: Vec<Disposer> = Vec::new();
                let ghost view = disposer@;
                left.push(disposer);
                assert(disposers_view(left@) =~= seq![view]);
                Driver {
                    fiber: guard.fiber,
                    phase: Phase::Disposing { left, after: Afterwards::Nothing },
                }
            },
            None => Driver { fiber: guard.fiber, phase: Phase::Ended },
        }
    }

    /// The probes whose predicates are to be asked.
    pub fn probes(&self) -> (res: Option<&Vec<Probe>>)
        ensures
            match self.phase {
                Phase::Withdrawing { notice, .. } => res == Some(&notice.probes),
                Phase::Telling { notice, .. } => res == Some(&notice.probes),
                _ => res is None,
            },
    {
        match &self.phase {
            Phase::Withdrawing { notice, .. } => Some(&notice.probes),
            Phase::Telling { notice, .. } => Some(&notice.probes),
            _ => None,
        }
    }

    /// Tell the driver what came of its last action: what it wants performed
    /// next.
    pub fn advance(self, root: &mut RootState, event: Event) -> (res: (Driver, Action))
        requires
            old(root).wf(),
            old(root).has_fiber(self.fiber),
            self.phase@.expects(event),
            self.phase@.fits(old(root)@, self.fiber as int),
        ensures
            final(root).wf(),
            final(root)@.fibers.len() == old(root)@.fibers.len(),
            res.0.fiber == self.fiber,
            res.0.phase@.fits(final(root)@, self.fiber as int),
            steps(
                old(root)@,
                self.phase@,
                event,
                self.fiber as int,
                final(root)@,
                res.0.phase@,
                res.1,
            ),
    {
        let fiber: usize = self.fiber;
        assert(root@.fibers[fiber as int] == root.fibers@[fiber as int]@);
        match self.phase {
            Phase::Looking => match root.drive(fiber) {
                DriveAction::Done => (Driver { fiber, phase: Phase::Ended }, Action::End),
                DriveAction::Again => (Driver { fiber, phase: Phase::Looking }, Action::Continue),
                DriveAction::Unload { forced, disposers } => (
                    Driver {
                        fiber,
                        phase: Phase::Disposing {
                            left: disposers,
                            after: Afterwards::Unloaded { forced },
                        },
                    },
                    Action::Continue,
                ),
                DriveAction::Load { target } => {
                    assert(root@.fibers[fiber as int] == root.fibers@[fiber as int]@);
                    let raw: Json = root.fibers[fiber].raw_config.clone();
                    let ctx: Context = root.fibers[fiber].ctx.clone();
                    let call: NextCall = ctx.pass(root, "internal/config", raw, None);
                    (Driver { fiber, phase: Phase::Resolving { target } }, Action::Resolve { call })
                },
            },
            Phase::Disposing { left, after } => Driver::dispose_next(fiber, root, left, after),
            Phase::Cleaning { left, after } => {
                root.disposer_done(fiber);
                (Driver { fiber, phase: Phase::Disposing { left, after } }, Action::Continue)
            },
            Phase::Withdrawing { notice, left, after } => {
                if let Event::Verdicts(verdicts) = event {
                    assert(notice.probes@.len() == notice@.probes.len());
                    proof {
                        if root@.fibers[fiber as int].running {
                            lemma_drivers_stay(root@, notice@, verdicts@, fiber as int);
                        }
                    }
                    root.finish_notice(notice, &verdicts);
                    root.disposer_done(fiber);
                }
                (Driver { fiber, phase: Phase::Disposing { left, after } }, Action::Continue)
            },
            Phase::Resolving { target } => match event {
                Event::Resolved(Ok(config)) => {
                    root.set_config(fiber, config.clone());
                    (Driver { fiber, phase: Phase::Applying { target } }, Action::Apply { config })
                },
                Event::Resolved(Err(error)) => {
                    root.fail_load(fiber, error);
                    (Driver { fiber, phase: Phase::Looking }, Action::Continue)
                },
                _ => (Driver { fiber, phase: Phase::Looking }, Action::Continue),
            },
            Phase::Applying { target } => match event {
                Event::Applied(Ok(())) => {
                    let services: Vec<(String, u64)> = root.finish_load(fiber, target);
                    (Driver { fiber, phase: Phase::Broadcasting { services } }, Action::Continue)
                },
                Event::Applied(Err(error)) => {
                    let left: Vec<Disposer> = root.abort_load(fiber);
                    let after: Afterwards = Afterwards::Failed(error);
                    (Driver { fiber, phase: Phase::Disposing { left, after } }, Action::Continue)
                },
                _ => (Driver { fiber, phase: Phase::Looking }, Action::Continue),
            },
            Phase::Broadcasting { services } => {
                if services.len() == 0 {
                    root.load_announced(fiber);
                    return (Driver { fiber, phase: Phase::Looking }, Action::Continue);
                }
                let mut services: Vec<(String, u64)> = services;
                let ghost all = keys_view(services@);
                let (name, label): (String, u64) = services.remove(0);
                assert(keys_view(services@) =~= all.drop_first());
                let ctx: Context = root.fibers[fiber].ctx.clone();
                let notice: Notice = root.notice_at(&ctx, name.as_str(), label);
                (Driver { fiber, phase: Phase::Telling { notice, services } }, Action::Ask)
            },
            Phase::Telling { notice, services } => {
                if let Event::Verdicts(verdicts) = event {
                    assert(notice.probes@.len() == notice@.probes.len());
                    proof {
                        lemma_drivers_stay(root@, notice@, verdicts@, fiber as int);
                    }
                    root.finish_notice(notice, &verdicts);
                }
                (Driver { fiber, phase: Phase::Broadcasting { services } }, Action::Continue)
            },
            Phase::Ended => (Driver { fiber, phase: Phase::Ended }, Action::End),
        }
    }

    fn dispose_next(
        fiber: usize,
        root: &mut RootState,
        left: Vec<Disposer>,
        after: Afterwards,
    ) -> (res: (Driver, Action))
        requires
            old(root).wf(),
            old(root).has_fiber(fiber),
            !(after is Nothing) ==> old(root)@.fibers[fiber as int].running,
        ensures
            final(root).wf(),
            final(root)@.fibers.len() == old(root)@.fibers.len(),
            res.0.fiber == fiber,
            res.0.phase@.fits(final(root)@, fiber as int),
            steps(
                old(root)@,
                (PhaseView::Disposing { left: disposers_view(left@), after }),
                Event::Go,
                fiber as int,
                final(root)@,
                res.0.phase@,
                res.1,
            ),
    {
        if left.len() == 0 {
            return match after {
                Afterwards::Unloaded { forced } => {
                    root.finish_unload(fiber, forced);
                    (Driver { fiber, phase: Phase::Looking }, Action::Continue)
                },
                Afterwards::Failed(error) => {
                    root.fail_load(fiber, error);
                    (Driver { fiber, phase: Phase::Looking }, Action::Continue)
                },
                Afterwards::Nothing => (Driver { fiber, phase: Phase::Ended }, Action::End),
            };
        }
        let mut left: Vec<Disposer> = left;
        let ghost all = disposers_view(left@);
        let disposer: Disposer = left.remove(0);
        assert(disposer@ == all[0]);
        assert(disposers_view(left@) =~= all.drop_first());
        match root.undo(disposer) {
            Undo::Done => {
                root.disposer_done(fiber);
                (Driver { fiber, phase: Phase::Disposing { left, after } }, Action::Continue)
            },
            Undo::Task(task) => (
                Driver { fiber, phase: Phase::Cleaning { left, after } },
                Action::Clean(task),
            ),
            Undo::Notify(notice) => (
                Driver { fiber, phase: Phase::Withdrawing { notice, left, after } },
                Action::Ask,
            ),
        }
    }
}

/// A driver can always be told what came of its last action: it expects the
/// event that the action leads to, and ends only when it says so.
pub proof fn law_driver_expects_what_it_asks_for(
    root: RootView,
    phase: PhaseView,
    event: Event,
    f: int,
    after_root: RootView,
    after_phase: PhaseView,
    action: Action,
    answer: Event,
)
    requires
        phase.expects(event),
        steps(root, phase, event, f, after_root, after_phase, action),
    ensures
        action is Continue && answer is Go ==> after_phase.expects(answer),
        action is Clean && answer is Cleaned ==> after_phase.expects(answer),
        action is Resolve && answer is Resolved ==> after_phase.expects(answer),
        action is Apply && answer is Applied ==> after_phase.expects(answer),
        action is Ask ==> after_phase is Withdrawing || after_phase is Telling,
        action is End <==> after_phase is Ended,
{
}

} // verus!
