//! What the driver of a fiber comes to.

use vstd::prelude::*;

use crate::drive::DriveActionView;
use crate::error::{Error, ErrorView};
use crate::fiber::{
    disposal_order, inactive, mirrored_state, EffectView, FiberState, FiberView,
};
use crate::lifecycle::DriveStepView;
use crate::root::{all_sound, CommandView, RootView};

verus! {

impl FiberView {
    /// One round of the driver: what it finds to do, done. `startup` is what
    /// the plugin body fails with, if it runs and fails.
    pub open spec fn round(self, startup: Option<ErrorView>) -> FiberView {
        let looked = self.stepped();
        match self.step() {
            DriveStepView::Settle => looked.cached(),
            DriveStepView::Unload { forced } => (FiberView {
                effects: Seq::empty(),
                ..looked
            }).unloaded(forced).cached(),
            DriveStepView::Park => looked.cached(),
            DriveStepView::Load { target } => if self.runtime is None {
                FiberView { loaded: target, ..looked }
            } else {
                match startup {
                    None => looked.loaded_with(target).cached(),
                    Some(error) => (FiberView { effects: Seq::empty(), ..looked }).failed_with(
                        error,
                    ).cached(),
                }
            },
        }
    }

    /// `n` rounds of the driver, with nothing else asking for anything.
    pub open spec fn rounds(self, n: nat, startup: Option<ErrorView>) -> FiberView
        decreases n,
    {
        if n == 0 {
            self
        } else {
            self.round(startup).rounds((n - 1) as nat, startup)
        }
    }

    /// The driver has nothing left to do and nobody has asked for more.
    pub open spec fn at_rest(self) -> bool {
        !self.unsettled() && !self.force
    }
}

/// A round is what the driver does to its fiber through the transitions of
/// the root: looking at it, and then reporting what it performed. Where it
/// loads, it has renewed the snapshots as well.
pub proof fn law_round_is_driven(root: RootView, f: int, error: Error)
    requires
        0 <= f < root.fibers.len(),
    ensures
        root.fibers[f].step() is Settle || root.fibers[f].step() is Park ==> root.driven(
            f,
        ).fibers[f] == root.fibers[f].round(None),
        root.fibers[f].step() matches DriveStepView::Unload { forced } ==> root.driven(
            f,
        ).unload_finished(f, forced).fibers[f] == root.fibers[f].round(None),
        root.fibers[f].step() matches DriveStepView::Load { target } ==> if root.fibers[f].runtime
            is None {
            root.driven(f).fibers[f] == root.fibers[f].round(None)
        } else {
            &&& root.driven(f).load_finished(f, target).fibers[f] == (FiberView {
                store: root.renewed(f, root.fibers[f].inject.len() as int),
                ..root.fibers[f].round(None)
            })
            &&& root.driven(f).with_fiber(
                f,
                FiberView { effects: Seq::empty(), ..root.driven(f).fibers[f] },
            ).load_failed(f, error).fibers[f] == (FiberView {
                store: root.renewed(f, root.fibers[f].inject.len() as int),
                ..root.fibers[f].round(Some(error.deep()))
            })
        },
{
}

/// A driver always comes to rest: whatever the fiber was asked for last, and
/// whether it is disposed of or not, at most three rounds settle it. A fiber
/// that has to stop has nothing loaded then. If its plugin starts, the fiber
/// ends up with the desired epoch loaded; if it fails, with nothing loaded and
/// the error kept, so that it waits instead of trying again and again.
pub proof fn law_driver_converges(fiber: FiberView, startup: Option<ErrorView>)
    ensures
        fiber.rounds(3, startup).at_rest(),
        fiber.rounds(3, startup).loaded == fiber.rounds(3, startup).desired,
        fiber.rounds(3, startup).state == fiber.rounds(3, startup).derived(),
        fiber.desired == inactive() ==> fiber.rounds(3, startup).loaded == inactive(),
        startup is None ==> fiber.rounds(3, startup).loaded == fiber.desired,
        startup is None ==> fiber.rounds(3, startup).desired == fiber.desired,
        fiber.uid is None ==> fiber.rounds(3, startup).state == FiberState::Disposed,
        fiber.uid is Some && startup is None && fiber.desired != inactive() ==> fiber.rounds(
            3,
            startup,
        ).state == FiberState::Active,
        fiber.runtime is Some && startup is Some && fiber.desired != inactive() && (fiber.desired
            != fiber.loaded || fiber.force) ==> {
            &&& fiber.rounds(3, startup).loaded == inactive()
            &&& fiber.rounds(3, startup).error == startup
            &&& fiber.uid is Some ==> fiber.rounds(3, startup).state == FiberState::Failed
        },
{
    reveal_with_fuel(FiberView::rounds, 4);
}

/// Disposing of a fiber unloads it and settles: its driver finds every live
/// effect to dispose of, newest first, and comes to rest with nothing loaded
/// and no effect left. Without anything loaded there is nothing to unload.
pub proof fn law_dispose_unloads_and_settles(root: RootView, f: int)
    requires
        0 <= f < root.fibers.len(),
    ensures
        root.disposed(f).fibers[f].rounds(3, None).at_rest(),
        root.disposed(f).fibers[f].rounds(3, None).loaded == inactive(),
        root.disposed(f).fibers[f].rounds(3, None).uid is None,
        root.disposed(f).fibers[f].rounds(3, None).state == FiberState::Disposed,
        root.fibers[f].loaded != inactive() ==> (root.disposed(f).drive_action(
            f,
        ) matches DriveActionView::Unload { disposers, .. } && disposers == disposal_order(
            root.fibers[f].effects,
        )),
        root.fibers[f].loaded != inactive() ==> root.disposed(f).fibers[f].rounds(3, None).effects
            == Seq::<Option<EffectView>>::empty(),
{
    law_driver_converges(root.disposed(f).fibers[f], None);
    law_disposed_is_final(root.disposed(f).fibers[f], 3, None);
    reveal_with_fuel(FiberView::rounds, 4);
}

/// New work starts a driver: a fiber that is asked for something, or to
/// restart, or is disposed of, has a driver from then on; where it had none,
/// the order to start one is given, once.
pub proof fn law_new_work_starts_a_driver(root: RootView, f: int, desired: Seq<char>)
    requires
        0 <= f < root.fibers.len(),
    ensures
        root.fibers[f].accepts(desired) ==> root.requested(f, desired).fibers[f].running,
        root.restarted(f).fibers[f].running,
        root.fibers[f].accepts(inactive()) ==> root.disposed(f).fibers[f].running,
        root.fibers[f].accepts(desired) ==> drives(root.requested(f, desired).outbox, f) == drives(
            root.outbox,
            f,
        ) + if root.fibers[f].running {
            0nat
        } else {
            1nat
        },
        drives(root.restarted(f).outbox, f) == drives(root.outbox, f) + if root.fibers[f].running {
            0nat
        } else {
            1nat
        },
        root.fibers[f].accepts(inactive()) ==> drives(root.disposed(f).outbox, f) == drives(
            root.outbox,
            f,
        ) + if root.fibers[f].running {
            0nat
        } else {
            1nat
        },
{
    reveal_with_fuel(drives, 8);
    assert forall|r: RootView, c: CommandView| #[trigger] r.post(c).outbox.drop_last()
        == r.outbox by {
        assert(r.post(c).outbox.drop_last() =~= r.outbox);
    }
}

/// How many orders to start a driver of `f` are among `commands`.
pub open spec fn drives(commands: Seq<CommandView>, f: int) -> nat
    decreases commands.len(),
{
    if commands.len() == 0 {
        0
    } else {
        drives(commands.drop_last(), f) + if commands.last() == CommandView::Drive(f) {
            1nat
        } else {
            0nat
        }
    }
}

/// A fiber without a driver has no work left: whenever no driver runs, every
/// fiber of a root is at rest.
pub proof fn law_without_drivers_all_is_at_rest(root: RootView, f: int)
    requires
        all_sound(root.fibers),
        0 <= f < root.fibers.len(),
        !root.fibers[f].running,
    ensures
        root.fibers[f].at_rest(),
{
}

/// At rest the driver stays at rest: a further round changes nothing but
/// what the mirror says.
pub proof fn law_rest_is_stable(fiber: FiberView, startup: Option<ErrorView>)
    requires
        fiber.at_rest(),
    ensures
        fiber.step() is Settle,
        fiber.round(startup) == fiber.cached(),
{
    assert(fiber.round(startup) =~= fiber.cached());
}

/// The lifecycle states of a fiber at rest: active exactly if an epoch is
/// loaded, failed if none is and the last startup failed, else pending.
pub proof fn law_states_at_rest(fiber: FiberView)
    requires
        fiber.at_rest(),
        fiber.uid is Some,
    ensures
        fiber.derived() == FiberState::Active <==> fiber.loaded != inactive(),
        fiber.derived() == FiberState::Failed <==> fiber.loaded == inactive() && fiber.error
            is Some,
        fiber.derived() == FiberState::Pending <==> fiber.loaded == inactive() && fiber.error
            is None,
{
}

/// A fiber is disposed exactly if it has no uid, and no round of its driver
/// gives it one back.
pub proof fn law_disposed_is_final(fiber: FiberView, n: nat, startup: Option<ErrorView>)
    ensures
        fiber.derived() == FiberState::Disposed <==> fiber.uid is None,
        fiber.rounds(n, startup).uid == fiber.uid,
    decreases n,
{
    if n > 0 {
        law_disposed_is_final(fiber.round(startup), (n - 1) as nat, startup);
    }
}

/// Losing a service means a reload, however fast it returns: a loaded fiber
/// that was asked to stop and then to run again, with the same epoch or
/// another, unloads before it loads. So it does if the second request comes
/// while it is unloading, and then it keeps what it remembers of the services
/// that are back.
pub proof fn law_loss_means_reload(fiber: FiberView, epoch: Seq<char>)
    requires
        fiber.at_rest(),
        fiber.uid is Some,
        fiber.runtime is Some,
        fiber.loaded != inactive(),
        epoch != inactive(),
    ensures
        fiber.accepts(inactive()),
        fiber.requested(inactive()).accepts(epoch),
        fiber.requested(inactive()).requested(epoch).step() is Unload,
        fiber.requested(inactive()).requested(epoch).round(None).step() == (DriveStepView::Load {
            target: epoch,
        }),
        fiber.requested(inactive()).requested(epoch).rounds(3, None).loaded == epoch,
        fiber.requested(inactive()).requested(epoch).rounds(3, None).at_rest(),
        ({
            let unloading = FiberView {
                effects: Seq::empty(),
                ..fiber.requested(inactive()).stepped()
            };
            let unloaded = unloading.requested(epoch).unloaded(true);
            &&& fiber.requested(inactive()).step() == (DriveStepView::Unload { forced: true })
            &&& unloaded.step() == (DriveStepView::Load { target: epoch })
            &&& unloaded.store == unloading.store
            &&& unloaded.rounds(2, None).loaded == epoch
            &&& unloaded.rounds(2, None).at_rest()
        }),
{
    reveal_with_fuel(FiberView::rounds, 4);
}

/// A failed fiber tries again as soon as its dependencies call for an epoch:
/// the request is taken, and the driver finds that epoch to load.
pub proof fn law_failed_fiber_retries(fiber: FiberView, epoch: Seq<char>)
    requires
        fiber.at_rest(),
        fiber.loaded == inactive(),
        epoch != inactive(),
    ensures
        fiber.accepts(epoch),
        fiber.requested(epoch).step() == (DriveStepView::Load { target: epoch }),
{
}

/// Asking for what is desired already, with nothing outstanding, changes
/// nothing at all.
pub proof fn law_request_is_idempotent(root: RootView, f: int, desired: Seq<char>)
    requires
        0 <= f < root.fibers.len(),
        root.fibers[f].desired == desired,
        !root.fibers[f].dirty,
    ensures
        root.requested(f, desired) == root,
{
}

/// The mirror gives back the state that was put into it.
pub proof fn law_mirror_reads_back(state: FiberState)
    ensures
        mirrored_state(state.code()) == state,
{
}

} // verus!
