//! The timer service: timeouts and intervals as effects, so that a pending
//! timer ends with the fiber that asked for it.

use vstd::prelude::*;

use crate::context::Context;
use crate::effects::{reports, EffectGuard};
use crate::error::{Error, ErrorView};
use crate::fiber::{Disposer, DisposerView};
use crate::resolve::{missing_service, missing_text, Reading};
use crate::root::{RootState, RootView};

verus! {

/// The text of the error for a timer that was cancelled with its context.
pub const DISPOSED_MESSAGE: &'static str = "context has been disposed";

/// The label of a timeout among the effects of a fiber.
pub const TIMEOUT_LABEL: &'static str = "ctx.timeout()";

/// The label of an interval among the effects of a fiber.
pub const INTERVAL_LABEL: &'static str = "ctx.interval()";

/// The error for a timer that was cancelled with its context.
pub open spec fn is_disposed_error(error: Error) -> bool {
    error.deep() == ErrorView::Other(DISPOSED_MESSAGE@)
}

fn disposed_error() -> (res: Error)
    ensures
        is_disposed_error(res),
        res.deep() == ErrorView::Other("context has been disposed"@),
{
    Error::msg(DISPOSED_MESSAGE)
}

/// The outcome of arming a timer in `scope`: an effect of its fiber that the
/// cleanup routine `task` cancels, or a refusal with nothing changed.
pub open spec fn arms(
    before: RootView,
    after: RootView,
    scope: Context,
    label: Seq<char>,
    task: u64,
    outcome: Result<EffectGuard, Error>,
) -> bool {
    match before.effect_refusal(scope) {
        None => {
            &&& after == before.with_effect(
                scope.fiber.unwrap() as int,
                label,
                Some(DisposerView::Task(task)),
            )
            &&& outcome matches Ok(guard)
            &&& guard.fiber == scope.fiber.unwrap()
            &&& guard.id == before.fibers[scope.fiber.unwrap() as int].next_effect_id
        },
        Some(refusal) => after == before && (outcome matches Err(error) && reports(
            error,
            refusal,
            "effect"@,
            Seq::empty(),
        )),
    }
}

fn arm(scope: &Context, root: &mut RootState, label: &str, task: u64) -> (res: Result<
    EffectGuard,
    Error,
>)
    requires
        old(root).wf(),
        old(root).has_context(*scope),
    ensures
        final(root).wf(),
        arms(old(root)@, final(root)@, *scope, label@, task, res),
{
    match scope.effect(root) {
        Ok(f) => Ok(root.commit_effect(f, label.to_owned(), Some(Disposer::Task(task)))),
        Err(error) => Err(error),
    }
}

/// The value of the `timer` service.
pub struct TimerService {
    pub ctx: Context,
}

impl TimerService {
    /// Arm a timeout owned by the fiber that provides the service.
    pub fn timeout(&self, root: &mut RootState, task: u64) -> (res: Result<EffectGuard, Error>)
        requires
            old(root).wf(),
            old(root).has_context(self.ctx),
        ensures
            final(root).wf(),
            arms(old(root)@, final(root)@, self.ctx, TIMEOUT_LABEL@, task, res),
    {
        self.timeout_in(&self.ctx, root, task)
    }

    /// Arm a timeout owned by the fiber of `scope`, so that it ends with its
    /// user.
    pub fn timeout_in(&self, scope: &Context, root: &mut RootState, task: u64) -> (res: Result<
        EffectGuard,
        Error,
    >)
        requires
            old(root).wf(),
            old(root).has_context(*scope),
        ensures
            final(root).wf(),
            arms(old(root)@, final(root)@, *scope, TIMEOUT_LABEL@, task, res),
    {
        arm(scope, root, TIMEOUT_LABEL, task)
    }

    /// Arm an interval owned by the fiber that provides the service.
    pub fn interval(&self, root: &mut RootState, task: u64) -> (res: Result<EffectGuard, Error>)
        requires
            old(root).wf(),
            old(root).has_context(self.ctx),
        ensures
            final(root).wf(),
            arms(old(root)@, final(root)@, self.ctx, INTERVAL_LABEL@, task, res),
    {
        self.interval_in(&self.ctx, root, task)
    }

    /// Arm an interval owned by the fiber of `scope`.
    pub fn interval_in(&self, scope: &Context, root: &mut RootState, task: u64) -> (res: Result<
        EffectGuard,
        Error,
    >)
        requires
            old(root).wf(),
            old(root).has_context(*scope),
        ensures
            final(root).wf(),
            arms(old(root)@, final(root)@, *scope, INTERVAL_LABEL@, task, res),
    {
        arm(scope, root, INTERVAL_LABEL, task)
    }
}

/// The outcome of arming a timer on `ctx` through the `timer` service that it
/// sees.
pub open spec fn arms_through_service(
    before: RootView,
    after: RootView,
    ctx: Context,
    label: Seq<char>,
    task: u64,
    outcome: Result<EffectGuard, Error>,
) -> bool {
    if before.reading(ctx, "timer"@) is Missing {
        after == before && (outcome matches Err(error) && error is Other && error.text()
            == missing_text("timer"@))
    } else {
        arms(before, after, ctx, label, task, outcome)
    }
}

/// Timers on whatever carries a context.
pub trait TimerContextExt {
    spec fn context(&self) -> Context;

    /// Arm a timeout; fails at once where no `timer` service is there.
    fn timeout(&self, root: &mut RootState, task: u64) -> (res: Result<EffectGuard, Error>)
        requires
            old(root).wf(),
            old(root).has_context(self.context()),
        ensures
            final(root).wf(),
            arms_through_service(
                old(root)@,
                final(root)@,
                self.context(),
                TIMEOUT_LABEL@,
                task,
                res,
            ),
    ;

    /// Arm an interval; fails at once where no `timer` service is there.
    fn interval(&self, root: &mut RootState, task: u64) -> (res: Result<EffectGuard, Error>)
        requires
            old(root).wf(),
            old(root).has_context(self.context()),
        ensures
            final(root).wf(),
            arms_through_service(
                old(root)@,
                final(root)@,
                self.context(),
                INTERVAL_LABEL@,
                task,
                res,
            ),
    ;

    /// Read the `timer` service.
    fn timer(&self, root: &RootState) -> (res: Result<Reading, Error>)
        requires
            root.wf(),
            root.has_context(self.context()),
        ensures
            root@.reading(self.context(), "timer"@) !is Missing ==> (res matches Ok(reading)
                && reading == root@.reading(self.context(), "timer"@)),
            root@.reading(self.context(), "timer"@) is Missing ==> (res matches Err(error) && error
                is Other && error.text() == missing_text("timer"@)),
    ;
}

impl TimerContextExt for Context {
    open spec fn context(&self) -> Context {
        *self
    }

    fn timeout(&self, root: &mut RootState, task: u64) -> (res: Result<EffectGuard, Error>) {
        match self.timer(root) {
            Ok(_) => arm(self, root, TIMEOUT_LABEL, task),
            Err(_) => Err(missing_service("timer")),
        }
    }

    fn interval(&self, root: &mut RootState, task: u64) -> (res: Result<EffectGuard, Error>) {
        match self.timer(root) {
            Ok(_) => arm(self, root, INTERVAL_LABEL, task),
            Err(error) => Err(error),
        }
    }

    fn timer(&self, root: &RootState) -> (res: Result<Reading, Error>) {
        self.require(root, "timer")
    }
}

/// What the task behind a timer has to say.
pub enum TimerSignal {
    /// Nothing yet.
    Quiet,
    /// It sent this.
    Sent(Result<(), Error>),
    /// It was cancelled.
    Closed,
}

/// Resolves once after its duration, or fails when it is cancelled.
pub struct TimeoutFuture {
    /// The task behind it may still say something.
    pub waiting: bool,
}

impl TimeoutFuture {
    pub fn new() -> (res: TimeoutFuture)
        ensures
            res.waiting,
    {
        TimeoutFuture { waiting: true }
    }

    /// What a poll comes to, given what the task has to say.
    pub fn poll(&mut self, signal: TimerSignal) -> (res: Option<Result<(), Error>>)
        ensures
            !old(self).waiting ==> !final(self).waiting && (res matches Some(Err(error))
                && is_disposed_error(error)),
            old(self).waiting ==> match signal {
                TimerSignal::Quiet => final(self).waiting && res is None,
                TimerSignal::Sent(result) => !final(self).waiting && res == Some(result),
                TimerSignal::Closed => !final(self).waiting && (res matches Some(Err(error))
                    && is_disposed_error(error)),
            },
    {
        if !self.waiting {
            return Some(Err(disposed_error()));
        }
        match signal {
            TimerSignal::Quiet => None,
            TimerSignal::Sent(result) => {
                self.waiting = false;
                Some(result)
            },
            TimerSignal::Closed => {
                self.waiting = false;
                Some(Err(disposed_error()))
            },
        }
    }
}

/// Stream of ticks. Once its task is gone it yields one final error, and then
/// nothing for good.
pub struct IntervalStream {
    pub closed_seen: bool,
}

impl IntervalStream {
    pub fn new() -> (res: IntervalStream)
        ensures
            !res.closed_seen,
    {
        IntervalStream { closed_seen: false }
    }

    /// What the stream yields, given what its task sent: `None` says that the
    /// task is gone and everything that it sent has been received.
    pub fn next(&mut self, sent: Option<Result<(), Error>>) -> (res: Option<Result<(), Error>>)
        ensures
            old(self).closed_seen ==> res is None && final(self).closed_seen,
            !old(self).closed_seen ==> match sent {
                Some(item) => res == Some(item) && !final(self).closed_seen,
                None => final(self).closed_seen && (res matches Some(Err(error))
                    && is_disposed_error(error)),
            },
    {
        if self.closed_seen {
            return None;
        }
        match sent {
            Some(item) => Some(item),
            None => {
                self.closed_seen = true;
                Some(Err(disposed_error()))
            },
        }
    }
}

/// Timers need the `timer` service: where a read of it from the context misses,
/// arming one fails with the error of that read and nothing changes; where it
/// does not, the timer is an effect of the fiber of the context, whoever
/// provides the service.
pub proof fn law_timers_need_their_service(
    before: RootView,
    after: RootView,
    ctx: Context,
    label: Seq<char>,
    task: u64,
    outcome: Result<EffectGuard, Error>,
)
    requires
        arms_through_service(before, after, ctx, label, task, outcome),
    ensures
        before.reading(ctx, "timer"@) == Reading::Missing ==> after == before && (
        outcome matches Err(error) && error is Other && error.text() == "cannot get property \""@
            + "timer"@ + "\" without inject"@),
        before.reading(ctx, "timer"@) != Reading::Missing ==> arms(
            before,
            after,
            ctx,
            label,
            task,
            outcome,
        ),
        ctx.context() == ctx,
        forall|error: Error| #[trigger]
            is_disposed_error(error) ==> error.deep() == ErrorView::Other(
                "context has been disposed"@,
            ),
        TIMEOUT_LABEL@ == "ctx.timeout()"@,
        INTERVAL_LABEL@ == "ctx.interval()"@,
        DISPOSED_MESSAGE@ == "context has been disposed"@,
{
}

} // verus!
