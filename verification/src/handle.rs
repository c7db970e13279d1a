//! Controls of a started plugin.

use vstd::prelude::*;

use crate::context::Context;
use crate::dispatch::NextCall;
use crate::error::{CordisCode, Error};
use crate::fiber::{live, EffectView, Fiber, FiberState, FiberView};
use crate::json::Json;
use crate::registry::FiberHandle;
use crate::root::{RootState, RootView};
use crate::text::{join3, texts};

verus! {

impl FiberView {
    /// Lifecycle work is under way.
    pub open spec fn unsettled(self) -> bool {
        self.dirty || self.running || self.loaded != self.desired
    }
}

/// The text of the error for a wait that took too long.
pub open spec fn timed_out_text(name: Seq<char>) -> Seq<char> {
    "join(\""@ + name + "\") timed out"@
}

/// What waiting for `fiber` comes to: nothing yet, its startup error, or
/// success.
pub open spec fn join_outcome(fiber: FiberView, outcome: Option<Result<(), Error>>) -> bool {
    if fiber.unsettled() {
        outcome is None
    } else {
        match fiber.error {
            Some(error) => outcome matches Some(Err(e)) && e.deep() == error,
            None => outcome == Some(Ok::<(), Error>(())),
        }
    }
}

impl Fiber {
    /// The display name of the plugin; `root` for the root fiber.
    pub fn name(&self) -> (res: String)
        ensures
            res@ == self@.name,
    {
        self.name.clone()
    }

    /// What waiting for this fiber to settle comes to at this moment.
    pub fn join(&self) -> (res: Option<Result<(), Error>>)
        ensures
            join_outcome(self@, res),
    {
        if self.driver.dirty || self.driver.running || self.loaded != self.driver.desired {
            return None;
        }
        match &self.error {
            Some(error) => Some(Err(error.clone())),
            None => Some(Ok(())),
        }
    }

    /// Like [`Fiber::join`]; once the time is up, the wait fails while the
    /// driver keeps converging.
    pub fn join_with_timeout(&self, expired: bool) -> (res: Option<Result<(), Error>>)
        ensures
            !(self@.unsettled() && expired) ==> join_outcome(self@, res),
            self@.unsettled() && expired ==> (res matches Some(Err(error)) && error is Other
                && error.text() == timed_out_text(self@.name) && error.text() == "join(\""@
                + self@.name + "\") timed out"@),
    {
        match self.join() {
            Some(outcome) => Some(outcome),
            None => {
                if expired {
                    let text: String = join3("join(\"", self.name.as_str(), "\") timed out");
                    Some(Err(Error::msg(text.as_str())))
                } else {
                    None
                }
            },
        }
    }
}

impl FiberHandle {
    /// The fiber of this handle.
    pub open spec fn of(self, root: RootView) -> FiberView {
        root.fibers[self.0 as int]
    }

    pub fn uid(&self, root: &RootState) -> (res: Option<u64>)
        requires
            root.has_fiber(self.0),
        ensures
            res == self.of(root@).uid,
    {
        assert(root@.fibers[self.0 as int] == root.fibers@[self.0 as int]@);
        root.fibers[self.0].uid
    }

    pub fn name(&self, root: &RootState) -> (res: String)
        requires
            root.has_fiber(self.0),
        ensures
            res@ == self.of(root@).name,
    {
        assert(root@.fibers[self.0 as int] == root.fibers@[self.0 as int]@);
        root.fibers[self.0].name()
    }

    pub fn state(&self, root: &RootState) -> (res: FiberState)
        requires
            root.has_fiber(self.0),
        ensures
            res == self.of(root@).state,
    {
        assert(root@.fibers[self.0 as int] == root.fibers@[self.0 as int]@);
        root.fibers[self.0].state()
    }

    /// Number of live effects of this fiber.
    pub fn effect_count(&self, root: &RootState) -> (res: usize)
        requires
            root.has_fiber(self.0),
        ensures
            res == live(self.of(root@).effects).len(),
    {
        assert(root@.fibers[self.0 as int] == root.fibers@[self.0 as int]@);
        root.fibers[self.0].effect_count()
    }

    /// Labels of the live effects of this fiber, in registration order.
    pub fn effect_metas(&self, root: &RootState) -> (res: Vec<String>)
        requires
            root.has_fiber(self.0),
        ensures
            texts(res@) == live(self.of(root@).effects).map_values(|e: EffectView| e.label),
    {
        assert(root@.fibers[self.0 as int] == root.fibers@[self.0 as int]@);
        root.fibers[self.0].effect_metas()
    }

    /// What waiting for the current lifecycle work comes to at this moment.
    pub fn join(&self, root: &RootState) -> (res: Option<Result<(), Error>>)
        requires
            root.has_fiber(self.0),
        ensures
            join_outcome(self.of(root@), res),
    {
        assert(root@.fibers[self.0 as int] == root.fibers@[self.0 as int]@);
        root.fibers[self.0].join()
    }

    /// Like [`FiberHandle::join`], bounded.
    pub fn join_with_timeout(&self, root: &RootState, expired: bool) -> (res: Option<
        Result<(), Error>,
    >)
        requires
            root.has_fiber(self.0),
        ensures
            !(self.of(root@).unsettled() && expired) ==> join_outcome(self.of(root@), res),
            self.of(root@).unsettled() && expired ==> (res matches Some(Err(error)) && error
                is Other && error.text() == timed_out_text(self.of(root@).name)),
    {
        assert(root@.fibers[self.0 as int] == root.fibers@[self.0 as int]@);
        root.fibers[self.0].join_with_timeout(expired)
    }

    /// Ask for a full unload and load round trip with the current config.
    pub fn restart(&self, root: &mut RootState) -> (res: Result<(), Error>)
        requires
            old(root).wf(),
            old(root).has_fiber(self.0),
        ensures
            final(root).wf(),
            self.of(old(root)@).uid is Some ==> res is Ok && final(root)@ == old(root)@.restarted(
                self.0 as int,
            ),
            self.of(old(root)@).uid is None ==> final(root)@ == old(root)@ && (
            res matches Err(Error::Coded(e)) && e.code == CordisCode::InactiveEffect && e.message@
                == CordisCode::InactiveEffect.text()),
    {
        root.restart(self.0)
    }

    /// Fail if the fiber has already been disposed of: then an update does
    /// not even ask its hooks.
    pub fn assert_active(&self, root: &RootState) -> (res: Result<(), Error>)
        requires
            root.has_fiber(self.0),
        ensures
            self.of(root@).uid is Some ==> res is Ok,
            self.of(root@).uid is None ==> (res matches Err(Error::Coded(e)) && e.code
                == CordisCode::InactiveEffect && e.message@ == CordisCode::InactiveEffect.text()),
    {
        assert(root@.fibers[self.0 as int] == root.fibers@[self.0 as int]@);
        root.fibers[self.0].assert_active()
    }

    /// Ask for an update: the chain of update hooks, which may transform the
    /// config or keep the update from happening. The update is applied, with
    /// [`FiberHandle::apply_update`], only where the chain reaches `fallback`;
    /// until then nothing has changed.
    pub fn update(&self, root: &RootState, config: Json, fallback: u64) -> (res: Result<
        NextCall,
        Error,
    >)
        requires
            root.wf(),
            root.has_fiber(self.0),
        ensures
            self.of(root@).uid is Some ==> (res matches Ok(call) && call@ == root@.update_chain(
                self.0 as int,
                fallback,
            ).run(config)),
            self.of(root@).uid is None ==> (res matches Err(Error::Coded(e)) && e.code
                == CordisCode::InactiveEffect && e.message@ == CordisCode::InactiveEffect.text()),
    {
        match self.assert_active(root) {
            Ok(()) => {},
            Err(error) => {
                return Err(error);
            },
        }
        assert(root@.fibers[self.0 as int] == root.fibers@[self.0 as int]@);
        let ctx: &Context = &root.fibers[self.0].ctx;
        Ok(ctx.pass(root, "internal/update", config, Some(fallback)))
    }

    /// Take over a new config and restart with it: what an update comes to
    /// once its hooks have let it pass.
    pub fn apply_update(&self, root: &mut RootState, config: Json) -> (res: Result<(), Error>)
        requires
            old(root).wf(),
            old(root).has_fiber(self.0),
        ensures
            final(root).wf(),
            self.of(old(root)@).uid is Some ==> res is Ok && final(root)@ == old(root)@.updated(
                self.0 as int,
                config,
            ),
            self.of(old(root)@).uid is None ==> final(root)@ == old(root)@ && (
            res matches Err(Error::Coded(e)) && e.code == CordisCode::InactiveEffect && e.message@
                == CordisCode::InactiveEffect.text()),
    {
        root.apply_update(self.0, config)
    }

    /// What an update comes to once its chain of hooks has come to `chain`: a
    /// failure is passed on; else it is the config that the plugin runs with,
    /// whether the update was applied or not.
    pub fn update_outcome(&self, root: &RootState, chain: Result<Json, Error>) -> (res: Result<
        Json,
        Error,
    >)
        requires
            root.has_fiber(self.0),
        ensures
            res == match chain {
                Ok(_) => Ok(self.of(root@).config),
                Err(error) => Err(error),
            },
    {
        match chain {
            Ok(_) => Ok(self.config(root)),
            Err(error) => Err(error),
        }
    }

    /// The config as given, ahead of the config hooks.
    pub fn raw_config(&self, root: &RootState) -> (res: Json)
        requires
            root.has_fiber(self.0),
        ensures
            res == self.of(root@).raw_config,
    {
        assert(root@.fibers[self.0 as int] == root.fibers@[self.0 as int]@);
        root.fibers[self.0].raw_config.clone()
    }

    /// The config that the plugin body last ran with.
    pub fn config(&self, root: &RootState) -> (res: Json)
        requires
            root.has_fiber(self.0),
        ensures
            res == self.of(root@).config,
    {
        assert(root@.fibers[self.0 as int] == root.fibers@[self.0 as int]@);
        root.fibers[self.0].config.clone()
    }

    /// Dispose of the fiber; says whether it was running.
    pub fn dispose(&self, root: &mut RootState) -> (res: bool)
        requires
            old(root).wf(),
            old(root).has_fiber(self.0),
        ensures
            final(root).wf(),
            res == (self.of(old(root)@).uid is Some),
            !res ==> final(root)@ == old(root)@,
            res ==> final(root)@ == old(root)@.disposed(self.0 as int),
    {
        root.dispose(self.0)
    }
}

} // verus!
