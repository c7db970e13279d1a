//! The dispatch modes as machines: each says whom to call next, takes what
//! the listener gave back, and ends in the result of the dispatch.

use vstd::prelude::*;

use crate::context::Context;
use crate::error::{errors_deep, CordisCode, Error, ErrorView};
use crate::events::{is_bailed, Delivery};
use crate::json::Json;

verus! {

/// Continuation handle for waterfall composition.
///
/// A listener that never continues vetoes the rest of the chain, including
/// the built-in fallback.
pub struct Next {
    /// Listeners still to be called, by callback.
    pub steps: Vec<u64>,
    /// The built-in behaviour at the end of the chain, if any.
    pub fallback: Option<u64>,
    pub ctx: Context,
}

/// What continuing a chain amounts to.
pub enum NextCall {
    /// Call this listener with the payload and the rest of the chain.
    Listener { callback: u64, ctx: Context, payload: Json, rest: Next },
    /// The chain is exhausted: run the built-in behaviour.
    Fallback { fallback: u64, payload: Json },
    /// The chain is exhausted and there is no built-in behaviour.
    Value(Json),
}

/// A chain as it is spoken of.
pub struct NextView {
    pub steps: Seq<u64>,
    pub fallback: Option<u64>,
    pub ctx: Context,
}

/// A continuation as it is spoken of.
pub enum NextCallView {
    Listener { callback: u64, ctx: Context, payload: Json, rest: NextView },
    Fallback { fallback: u64, payload: Json },
    Value(Json),
}

impl View for Next {
    type V = NextView;

    open spec fn view(&self) -> NextView {
        NextView { steps: self.steps@, fallback: self.fallback, ctx: self.ctx }
    }
}

impl View for NextCall {
    type V = NextCallView;

    open spec fn view(&self) -> NextCallView {
        match *self {
            NextCall::Listener { callback, ctx, payload, rest } => NextCallView::Listener {
                callback,
                ctx,
                payload,
                rest: rest@,
            },
            NextCall::Fallback { fallback, payload } => NextCallView::Fallback {
                fallback,
                payload,
            },
            NextCall::Value(payload) => NextCallView::Value(payload),
        }
    }
}

impl NextView {
    /// Continue with `payload`: the first step, given the steps after it; the
    /// fallback once no step is left.
    pub open spec fn run(self, payload: Json) -> NextCallView {
        if self.steps.len() > 0 {
            NextCallView::Listener {
                callback: self.steps[0],
                ctx: self.ctx,
                payload,
                rest: NextView { steps: self.steps.drop_first(), ..self },
            }
        } else {
            match self.fallback {
                Some(fallback) => NextCallView::Fallback { fallback, payload },
                None => NextCallView::Value(payload),
            }
        }
    }

    /// The chain that is left after `n` listeners have continued.
    pub open spec fn after(self, n: nat) -> NextView {
        NextView { steps: self.steps.skip(n as int), ..self }
    }
}

impl Clone for Next {
    fn clone(&self) -> (res: Next)
        ensures
            res@ == self@,
    {
        let mut steps: Vec<u64> = Vec::new();
        let mut i: usize = 0;
        while i < self.steps.len()
            invariant
                i <= self.steps@.len(),
                steps@ == self.steps@.take(i as int),
            decreases self.steps@.len() - i,
        {
            steps.push(self.steps[i]);
            assert(steps@ =~= self.steps@.take(i + 1));
            i = i + 1;
        }
        assert(steps@ =~= self.steps@);
        Next { steps, fallback: self.fallback, ctx: self.ctx.clone() }
    }
}

impl Next {
    /// A chain with nothing but its built-in behaviour.
    pub fn terminal(ctx: Context, fallback: u64) -> (res: Next)
        ensures
            res@ == (NextView { steps: Seq::empty(), fallback: Some(fallback), ctx }),
    {
        let res: Next = Next { steps: Vec::new(), fallback: Some(fallback), ctx };
        assert(res@.steps =~= Seq::empty());
        res
    }

    pub fn with_steps(ctx: Context, steps: Vec<u64>, fallback: Option<u64>) -> (res: Next)
        ensures
            res@ == (NextView { steps: steps@, fallback, ctx }),
    {
        Next { steps, fallback, ctx }
    }

    /// Continue the chain with an updated payload.
    pub fn run(self, payload: Json) -> (res: NextCall)
        ensures
            res@ == self@.run(payload),
    {
        let ghost chain = self@;
        let mut steps: Vec<u64> = self.steps;
        if steps.len() > 0 {
            let callback: u64 = steps.remove(0);
            assert(steps@ =~= chain.steps.drop_first());
            let ctx: Context = self.ctx.clone();
            NextCall::Listener {
                callback,
                ctx,
                payload,
                rest: Next { steps, fallback: self.fallback, ctx: self.ctx },
            }
        } else {
            match self.fallback {
                Some(fallback) => NextCall::Fallback { fallback, payload },
                None => NextCall::Value(payload),
            }
        }
    }
}

/// The callbacks of `listeners`, in order.
pub open spec fn callbacks(listeners: Seq<Delivery>) -> Seq<u64> {
    listeners.map_values(|d: Delivery| d.callback)
}

/// Compose listeners around a built-in fallback, if any, outermost first.
///
/// Every listener is called with the dispatching context; each may transform
/// the payload before continuing, or veto by never continuing.
pub fn waterfall(
    ctx: Context,
    listeners: &Vec<Delivery>,
    payload: Json,
    fallback: Option<u64>,
) -> (res: NextCall)
    ensures
        res@ == (NextView { steps: callbacks(listeners@), fallback, ctx }).run(payload),
{
    let mut steps: Vec<u64> = Vec::new();
    let mut i: usize = 0;
    while i < listeners.len()
        invariant
            i <= listeners@.len(),
            steps@ == callbacks(listeners@).take(i as int),
        decreases listeners@.len() - i,
    {
        steps.push(listeners[i].callback);
        assert(steps@ =~= callbacks(listeners@).take(i + 1));
        i = i + 1;
    }
    assert(steps@ =~= callbacks(listeners@));
    Next::with_steps(ctx, steps, fallback).run(payload)
}

/// A waterfall calls its listeners in order and its fallback last: whoever
/// continues after the first `n` listeners did reaches listener `n`, and the
/// fallback once there is none. So a listener that does not continue keeps
/// every later one, and the fallback, from running.
pub proof fn law_waterfall_order(chain: NextView, n: nat, payload: Json)
    requires
        n <= chain.steps.len(),
    ensures
        n < chain.steps.len() ==> chain.after(n).run(payload) == (NextCallView::Listener {
            callback: chain.steps[n as int],
            ctx: chain.ctx,
            payload,
            rest: chain.after(n + 1),
        }),
        n == chain.steps.len() ==> chain.after(n).run(payload) == match chain.fallback {
            Some(fallback) => NextCallView::Fallback { fallback, payload },
            None => NextCallView::Value(payload),
        },
{
    if n < chain.steps.len() {
        assert(chain.after(n).steps.drop_first() =~= chain.after(n + 1).steps);
    }
}

/// Whether an answer ends a sequential dispatch.
pub open spec fn ends_serial(answer: Result<Json, Error>) -> bool {
    match answer {
        Ok(value) => value.bails(),
        Err(_) => true,
    }
}

/// One step of a sequential dispatch over `n` listeners: the outcome, or the
/// position of the next listener.
pub open spec fn serial_step(
    n: nat,
    payload: Json,
    at: nat,
    answer: Result<Json, Error>,
) -> Result<nat, Result<Json, Error>> {
    if ends_serial(answer) {
        Err(answer)
    } else if at + 1 >= n {
        Err(Ok(payload))
    } else {
        Ok(at + 1)
    }
}

/// The outcome of a sequential dispatch over `n` listeners from listener
/// `at`, where listener `i` would answer `answers[i]`.
pub open spec fn serial_outcome(
    n: nat,
    payload: Json,
    at: nat,
    answers: Seq<Result<Json, Error>>,
) -> Result<Json, Error>
    decreases n - at,
{
    if at >= n {
        Ok(payload)
    } else {
        match serial_step(n, payload, at, answers[at as int]) {
            Err(out) => out,
            Ok(next) => serial_outcome(n, payload, at + 1, answers),
        }
    }
}

/// Sequential dispatch that waits for the answer of one listener.
pub struct Serial {
    pub listeners: Vec<Delivery>,
    pub payload: Json,
    /// The listener whose turn it is.
    pub at: usize,
}

/// Where a sequential dispatch stands.
pub enum SerialState {
    /// Call the listener whose turn it is, with the payload as it was given.
    Waiting(Serial),
    /// The dispatch is over.
    Done(Result<Json, Error>),
}

impl Serial {
    pub open spec fn wf(&self) -> bool {
        self.at < self.listeners@.len()
    }

    /// Begin at the first listener; without listeners the payload falls
    /// through.
    pub fn start(listeners: Vec<Delivery>, payload: Json) -> (res: SerialState)
        ensures
            match res {
                SerialState::Waiting(s) => s.wf() && s.listeners == listeners && s.payload
                    == payload && s.at == 0,
                SerialState::Done(out) => listeners@.len() == 0 && out == Ok::<Json, Error>(
                    payload,
                ),
            },
    {
        if listeners.len() == 0 {
            SerialState::Done(Ok(payload))
        } else {
            SerialState::Waiting(Serial { listeners, payload, at: 0 })
        }
    }

    /// The listener whose turn it is.
    pub fn current(&self) -> (res: &Delivery)
        requires
            self.wf(),
        ensures
            *res == self.listeners@[self.at as int],
    {
        &self.listeners[self.at]
    }

    /// Take the answer of the listener whose turn it is: an error or a bail
    /// value ends the dispatch, anything else passes the turn on.
    pub fn answered(self, answer: Result<Json, Error>) -> (res: SerialState)
        requires
            self.wf(),
        ensures
            match serial_step(self.listeners@.len(), self.payload, self.at as nat, answer) {
                Err(out) => res == SerialState::Done(out),
                Ok(next) => res matches SerialState::Waiting(s) && s.wf() && s.at == next
                    && s.listeners == self.listeners && s.payload == self.payload,
            },
            answer is Err ==> res == SerialState::Done(answer),
            answer matches Ok(value) ==> {
                let passes = value == Json::Null || value == Json::Bool(false);
                &&& !passes ==> res == SerialState::Done(Ok(value))
                &&& passes && self.at + 1 == self.listeners@.len() ==> res == SerialState::Done(
                    Ok(self.payload),
                )
                &&& passes && self.at + 1 < self.listeners@.len() ==> (
                res matches SerialState::Waiting(s) && s.at == self.at + 1 && s.listeners
                    == self.listeners && s.payload == self.payload)
            },
    {
        let total: usize = self.listeners.len();
        match answer {
            Err(error) => SerialState::Done(Err(error)),
            Ok(value) => {
                if is_bailed(&value) {
                    SerialState::Done(Ok(value))
                } else if self.at + 1 == total {
                    SerialState::Done(Ok(self.payload))
                } else {
                    SerialState::Waiting(
                        Serial {
                            listeners: self.listeners,
                            payload: self.payload,
                            at: self.at + 1,
                        },
                    )
                }
            },
        }
    }
}

/// Sequential dispatch stops at the first answer that ends it: the listeners
/// before `k` let it pass, listener `k` decides, and whatever a later
/// listener would have answered makes no difference.
pub proof fn law_serial_first_bail(
    n: nat,
    payload: Json,
    at: nat,
    k: nat,
    answers: Seq<Result<Json, Error>>,
)
    requires
        at <= k < n,
        forall|i: int| at <= i < k ==> !ends_serial(#[trigger] answers[i]),
        ends_serial(answers[k as int]),
    ensures
        serial_outcome(n, payload, at, answers) == answers[k as int],
    decreases k - at,
{
    if at < k {
        assert(!ends_serial(answers[at as int]));
        law_serial_first_bail(n, payload, at + 1, k, answers);
    }
}

/// If no answer ends a sequential dispatch, the payload falls through
/// unchanged.
pub proof fn law_serial_falls_through(
    n: nat,
    payload: Json,
    at: nat,
    answers: Seq<Result<Json, Error>>,
)
    requires
        forall|i: int| at <= i < n ==> !ends_serial(#[trigger] answers[i]),
    ensures
        serial_outcome(n, payload, at, answers) == Ok::<Json, Error>(payload),
    decreases n - at,
{
    if at < n {
        assert(!ends_serial(answers[at as int]));
        law_serial_falls_through(n, payload, at + 1, answers);
    }
}

/// A sequential dispatch is over with the first answer that is an error or a
/// value other than `null` and `false`, and that answer is what it comes to:
/// `true`, a number, an object alike. Where every answer is `null` or `false`,
/// the turn reaches every listener and the payload falls through.
pub proof fn law_serial_is_over_with_the_first_value(
    n: nat,
    payload: Json,
    k: nat,
    answers: Seq<Result<Json, Error>>,
)
    requires
        k <= n,
        forall|i: int|
            0 <= i < k ==> (#[trigger] answers[i] matches Ok(value) && (value == Json::Null
                || value == Json::Bool(false))),
    ensures
        forall|value: Json, at: nat|
            value != Json::Null && value != Json::Bool(false) ==> #[trigger] serial_step(
                n,
                payload,
                at,
                Ok(value),
            ) == Err::<nat, Result<Json, Error>>(Ok(value)),
        forall|error: Error, at: nat| #[trigger]
            serial_step(n, payload, at, Err(error)) == Err::<nat, Result<Json, Error>>(Err(error)),
        forall|value: Json, at: nat|
            value == Json::Null || value == Json::Bool(false) ==> #[trigger] serial_step(
                n,
                payload,
                at,
                Ok(value),
            ) == if at + 1 < n {
                Ok::<nat, Result<Json, Error>>(at + 1)
            } else {
                Err(Ok(payload))
            },
        k < n ==> match answers[k as int] {
            Ok(value) => value != Json::Null && value != Json::Bool(false) ==> serial_outcome(
                n,
                payload,
                0,
                answers,
            ) == Ok::<Json, Error>(value),
            Err(error) => serial_outcome(n, payload, 0, answers) == Err::<Json, Error>(error),
        },
        k == n ==> serial_outcome(n, payload, 0, answers) == Ok::<Json, Error>(payload),
{
    assert forall|i: int| 0 <= i < k implies !ends_serial(#[trigger] answers[i]) by {
        assert(answers[i] is Ok);
    }
    if k == n {
        law_serial_falls_through(n, payload, 0, answers);
    } else if ends_serial(answers[k as int]) {
        law_serial_first_bail(n, payload, 0, k, answers);
    }
}

/// How one concurrent listener ended.
pub enum Joined {
    /// It gave a value back.
    Finished,
    /// It failed.
    Failed(Error),
    /// Its task was lost; the text says how.
    Lost(String),
}

/// What a listener that ended so adds to the failures.
pub open spec fn joined_errors(joined: Joined) -> Seq<ErrorView> {
    match joined {
        Joined::Finished => Seq::empty(),
        Joined::Failed(error) => seq![error.deep()],
        Joined::Lost(text) => seq![ErrorView::Other(text@)],
    }
}

/// All failures among `ended`, in that order.
pub open spec fn all_errors(ended: Seq<Joined>) -> Seq<ErrorView>
    decreases ended.len(),
{
    if ended.len() == 0 {
        Seq::empty()
    } else {
        all_errors(ended.drop_last()) + joined_errors(ended.last())
    }
}

/// Concurrent dispatch, once its listeners have ended so, in this order.
///
/// A wait that ran out is a timeout. Else every failure is reported in one
/// aggregate, none is swallowed and none keeps another listener from being
/// waited for; without failures the result is the payload.
pub fn parallel_outcome(payload: Json, ended: Vec<Joined>, timed_out: bool) -> (res: Result<
    Json,
    Error,
>)
    ensures
        timed_out ==> (res matches Err(Error::Coded(e)) && e.code == CordisCode::Timeout
            && e.message@ == CordisCode::Timeout.text()),
        !timed_out && all_errors(ended@).len() == 0 ==> res == Ok::<Json, Error>(payload),
        !timed_out && all_errors(ended@).len() > 0 ==> (res matches Err(e) && e.deep()
            == ErrorView::Aggregate(all_errors(ended@))),
{
    if timed_out {
        return Err(Error::coded(CordisCode::Timeout));
    }
    let ghost all = ended@;
    let mut left: Vec<Joined> = ended;
    let mut errors: Vec<Error> = Vec::new();
    let total: usize = left.len();
    let mut done: usize = 0;
    assert(errors_deep(errors@) =~= all_errors(all.take(0)));
    assert(left@ =~= all.skip(0));
    while done < total
        invariant
            done <= total,
            total == all.len(),
            left@ == all.skip(done as int),
            errors_deep(errors@) == all_errors(all.take(done as int)),
        decreases total - done,
    {
        let ghost before = errors@;
        let joined: Joined = left.remove(0);
        proof {
            assert(joined == all[done as int]);
            assert(left@ =~= all.skip(done + 1));
            assert(all.take(done + 1).drop_last() =~= all.take(done as int));
            assert(all.take(done + 1).last() == joined);
        }
        match joined {
            Joined::Finished => {},
            Joined::Failed(error) => {
                errors.push(error);
            },
            Joined::Lost(text) => {
                errors.push(Error::msg(text.as_str()));
            },
        }
        assert(errors_deep(errors@) =~= errors_deep(before) + joined_errors(joined));
        done = done + 1;
    }
    assert(all.take(all.len() as int) =~= all);
    if errors.len() == 0 {
        Ok(payload)
    } else {
        Err(Error::aggregate(errors))
    }
}

/// The failures among `answers`, in that order.
pub open spec fn failures(answers: Seq<Result<Json, Error>>) -> Seq<ErrorView>
    decreases answers.len(),
{
    if answers.len() == 0 {
        Seq::empty()
    } else {
        match answers.last() {
            Ok(_) => failures(answers.drop_last()),
            Err(error) => failures(answers.drop_last()).push(error.deep()),
        }
    }
}

/// The outcome of a dispatch whose sync-slot listeners gave `answers` back:
/// their failures are reported, never swallowed.
pub open spec fn sync_outcome(
    answers: Seq<Result<Json, Error>>,
    outcome: Result<(), Error>,
) -> bool {
    if failures(answers).len() == 0 {
        outcome == Ok::<(), Error>(())
    } else {
        outcome matches Err(e) && e.deep() == ErrorView::Aggregate(failures(answers))
    }
}

/// What a dispatch comes to whose sync-slot listeners gave `answers` back.
pub fn emit_sync_outcome(answers: Vec<Result<Json, Error>>) -> (res: Result<(), Error>)
    ensures
        sync_outcome(answers@, res),
{
    let ghost all = answers@;
    let mut left: Vec<Result<Json, Error>> = answers;
    let mut errors: Vec<Error> = Vec::new();
    let total: usize = left.len();
    let mut done: usize = 0;
    assert(errors_deep(errors@) =~= failures(all.take(0)));
    assert(left@ =~= all.skip(0));
    while done < total
        invariant
            done <= total,
            total == all.len(),
            left@ == all.skip(done as int),
            errors_deep(errors@) == failures(all.take(done as int)),
        decreases total - done,
    {
        let ghost before = errors@;
        let answer: Result<Json, Error> = left.remove(0);
        proof {
            assert(answer == all[done as int]);
            assert(left@ =~= all.skip(done + 1));
            assert(all.take(done + 1).drop_last() =~= all.take(done as int));
            assert(all.take(done + 1).last() == answer);
        }
        if let Err(error) = answer {
            errors.push(error);
            assert(errors_deep(errors@) =~= errors_deep(before).push(error.deep()));
        }
        done = done + 1;
    }
    assert(all.take(all.len() as int) =~= all);
    if errors.len() > 0 {
        return Err(Error::aggregate(errors));
    }
    Ok(())
}

/// Dispatch for the sync slot: the listeners take their turns in order. One of
/// the sync slot is awaited inline, before the next turn; any other is left to
/// itself.
pub struct SyncDispatch {
    pub listeners: Vec<Delivery>,
    /// The listener whose turn it is.
    pub at: usize,
    /// What the awaited listeners gave back so far.
    pub answers: Vec<Result<Json, Error>>,
}

/// Where a dispatch for the sync slot stands.
pub enum SyncState {
    /// Call the listener whose turn it is, and wait for its answer.
    Await(SyncDispatch),
    /// Call the listener whose turn it is, without waiting for it.
    Spawn(SyncDispatch),
    /// The dispatch is over.
    Done(Result<(), Error>),
}

/// `state` is where a dispatch over `listeners` stands when it is the turn of
/// listener `at` and the awaited ones before it gave `answers` back.
pub open spec fn sync_stands(
    listeners: Seq<Delivery>,
    at: nat,
    answers: Seq<Result<Json, Error>>,
    state: SyncState,
) -> bool {
    if at >= listeners.len() {
        state matches SyncState::Done(outcome) && sync_outcome(answers, outcome)
    } else if listeners[at as int].sync {
        state matches SyncState::Await(d) && d.listeners@ == listeners && d.at == at && d.answers@
            == answers
    } else {
        state matches SyncState::Spawn(d) && d.listeners@ == listeners && d.at == at && d.answers@
            == answers
    }
}

impl SyncDispatch {
    /// Begin at the first listener.
    pub fn start(listeners: Vec<Delivery>) -> (res: SyncState)
        ensures
            sync_stands(listeners@, 0, Seq::empty(), res),
    {
        SyncDispatch::turn(listeners, 0, Vec::new())
    }

    fn turn(listeners: Vec<Delivery>, at: usize, answers: Vec<Result<Json, Error>>) -> (res:
        SyncState)
        requires
            at <= listeners@.len(),
        ensures
            sync_stands(listeners@, at as nat, answers@, res),
    {
        if at == listeners.len() {
            return SyncState::Done(emit_sync_outcome(answers));
        }
        if listeners[at].sync {
            SyncState::Await(SyncDispatch { listeners, at, answers })
        } else {
            SyncState::Spawn(SyncDispatch { listeners, at, answers })
        }
    }

    /// The listener whose turn it is.
    pub fn current(&self) -> (res: &Delivery)
        requires
            self.at < self.listeners.len(),
        ensures
            *res == self.listeners@[self.at as int],
    {
        &self.listeners[self.at]
    }

    /// Take the answer of the awaited listener, and pass the turn on.
    pub fn answered(self, answer: Result<Json, Error>) -> (res: SyncState)
        requires
            self.at < self.listeners.len(),
        ensures
            sync_stands(self.listeners@, (self.at + 1) as nat, self.answers@.push(answer), res),
    {
        let mut answers: Vec<Result<Json, Error>> = self.answers;
        answers.push(answer);
        SyncDispatch::turn(self.listeners, self.at + 1, answers)
    }

    /// The listener has been called without waiting: pass the turn on.
    pub fn spawned(self) -> (res: SyncState)
        requires
            self.at < self.listeners.len(),
        ensures
            sync_stands(self.listeners@, (self.at + 1) as nat, self.answers@, res),
    {
        SyncDispatch::turn(self.listeners, self.at + 1, self.answers)
    }
}

/// What the sync-slot listeners among the first `n` give back, in order, where
/// listener `i` gives `given[i]` back.
pub open spec fn awaited(
    listeners: Seq<Delivery>,
    given: Seq<Result<Json, Error>>,
    n: nat,
) -> Seq<Result<Json, Error>>
    decreases n,
{
    if n == 0 {
        Seq::empty()
    } else if listeners[n - 1].sync {
        awaited(listeners, given, (n - 1) as nat).push(given[n - 1])
    } else {
        awaited(listeners, given, (n - 1) as nat)
    }
}

/// A dispatch for the sync slot awaits exactly the listeners of that slot, in
/// order. `state` is where it stands after `n` turns in which every awaited
/// listener `i` gave `given[i]` back. It says whether the next listener is to
/// be awaited; fed that way it stands as it should after the next turn; and
/// once every listener has had its turn, it fails exactly if a listener of
/// the sync slot failed, whatever became of the others.
pub proof fn law_emit_sync_awaits_the_sync_slot(
    listeners: Seq<Delivery>,
    given: Seq<Result<Json, Error>>,
    n: nat,
    state: SyncState,
)
    requires
        n <= listeners.len(),
        sync_stands(listeners, n, awaited(listeners, given, n), state),
    ensures
        n < listeners.len() ==> (state is Await <==> listeners[n as int].sync) && (state is Spawn
            <==> !listeners[n as int].sync),
        n < listeners.len() ==> awaited(listeners, given, n + 1) == if state is Await {
            awaited(listeners, given, n).push(given[n as int])
        } else {
            awaited(listeners, given, n)
        },
        n == listeners.len() ==> (state matches SyncState::Done(outcome) && (outcome is Err <==> (
        exists|i: int|
            0 <= i < n && (#[trigger] listeners[i]).sync && given[i] is Err))),
{
    lemma_awaited_failures(listeners, given, n);
}

proof fn lemma_awaited_failures(
    listeners: Seq<Delivery>,
    given: Seq<Result<Json, Error>>,
    n: nat,
)
    requires
        n <= listeners.len(),
    ensures
        failures(awaited(listeners, given, n)).len() > 0 <==> exists|i: int|
            0 <= i < n && (#[trigger] listeners[i]).sync && given[i] is Err,
    decreases n,
{
    if n > 0 {
        let m = (n - 1) as nat;
        lemma_awaited_failures(listeners, given, m);
        let before = awaited(listeners, given, m);
        let last = listeners[n - 1];
        if last.sync {
            assert(before.push(given[n - 1]).drop_last() =~= before);
        }
        if exists|i: int| 0 <= i < n && (#[trigger] listeners[i]).sync && given[i] is Err {
            let i = choose|i: int|
                0 <= i < n && (#[trigger] listeners[i]).sync && given[i] is Err;
            if i < m {
                assert(listeners[i].sync && given[i] is Err);
            }
        }
    }
}

/// No failure of a concurrent listener is swallowed, none is made up, and they
/// are reported in the order in which the listeners ended: the failures of two
/// groups are those of the first and then those of the second; a listener
/// that gave a value back adds none, one that failed its error, and one whose
/// task was lost an error that says how.
pub proof fn law_every_failure_is_reported(
    first: Seq<Joined>,
    second: Seq<Joined>,
    error: Error,
    text: String,
)
    ensures
        all_errors(first + second) == all_errors(first) + all_errors(second),
        all_errors(Seq::empty()).len() == 0,
        all_errors(seq![Joined::Finished]).len() == 0,
        all_errors(seq![Joined::Failed(error)]) == seq![error.deep()],
        all_errors(seq![Joined::Lost(text)]) == seq![ErrorView::Other(text@)],
{
    lemma_errors_joined(first, second);
    reveal_with_fuel(all_errors, 2);
    assert(seq![Joined::Finished].drop_last() =~= Seq::empty());
    assert(seq![Joined::Failed(error)].drop_last() =~= Seq::empty());
    assert(seq![Joined::Lost(text)].drop_last() =~= Seq::empty());
    assert(all_errors(seq![Joined::Failed(error)]) =~= seq![error.deep()]);
    assert(all_errors(seq![Joined::Lost(text)]) =~= seq![ErrorView::Other(text@)]);
}

proof fn lemma_errors_joined(first: Seq<Joined>, second: Seq<Joined>)
    ensures
        all_errors(first + second) == all_errors(first) + all_errors(second),
    decreases second.len(),
{
    if second.len() == 0 {
        assert(first + second =~= first);
        assert(all_errors(first) + all_errors(second) =~= all_errors(first));
    } else {
        assert((first + second).drop_last() =~= first + second.drop_last());
        lemma_errors_joined(first, second.drop_last());
        assert(all_errors(first + second) =~= all_errors(first) + all_errors(second));
    }
}

/// No failure of a listener of the sync slot is swallowed either: the failures
/// of two groups of answers are those of the first and then those of the
/// second; a value adds none, an error itself.
pub proof fn law_every_sync_failure_is_reported(
    first: Seq<Result<Json, Error>>,
    second: Seq<Result<Json, Error>>,
    value: Json,
    error: Error,
)
    ensures
        failures(first + second) == failures(first) + failures(second),
        failures(Seq::empty()).len() == 0,
        failures(seq![Ok(value)]).len() == 0,
        failures(seq![Err(error)]) == seq![error.deep()],
{
    lemma_failures_joined(first, second);
    reveal_with_fuel(failures, 2);
    assert(seq![Ok::<Json, Error>(value)].drop_last() =~= Seq::empty());
    assert(seq![Err::<Json, Error>(error)].drop_last() =~= Seq::empty());
    assert(failures(seq![Err(error)]) =~= seq![error.deep()]);
}

proof fn lemma_failures_joined(first: Seq<Result<Json, Error>>, second: Seq<Result<Json, Error>>)
    ensures
        failures(first + second) == failures(first) + failures(second),
    decreases second.len(),
{
    if second.len() == 0 {
        assert(first + second =~= first);
        assert(failures(first) + failures(second) =~= failures(first));
    } else {
        assert((first + second).drop_last() =~= first + second.drop_last());
        lemma_failures_joined(first, second.drop_last());
        assert(failures(first + second) =~= failures(first) + failures(second));
    }
}

/// Where a dispatch for the sync slot stands is its turn and nothing else: at a
/// listener of the sync slot it waits, at any other it does not, and past the
/// last one it is over, well exactly if no awaited listener failed, and else
/// with every failure in one aggregate.
pub proof fn law_sync_dispatch_takes_turns(
    listeners: Seq<Delivery>,
    at: nat,
    answers: Seq<Result<Json, Error>>,
    state: SyncState,
)
    requires
        sync_stands(listeners, at, answers, state),
        at <= listeners.len(),
    ensures
        match state {
            SyncState::Await(d) => at < listeners.len() && listeners[at as int].sync && d.at == at
                && d.listeners@ == listeners && d.answers@ == answers,
            SyncState::Spawn(d) => at < listeners.len() && !listeners[at as int].sync && d.at == at
                && d.listeners@ == listeners && d.answers@ == answers,
            SyncState::Done(Ok(_)) => at == listeners.len() && forall|i: int|
                0 <= i < answers.len() ==> #[trigger] answers[i] is Ok,
            SyncState::Done(Err(error)) => at == listeners.len() && error.deep()
                == ErrorView::Aggregate(failures(answers)) && exists|i: int|
                0 <= i < answers.len() && #[trigger] answers[i] is Err,
        },
{
    lemma_no_failures(answers);
}

proof fn lemma_no_failures(answers: Seq<Result<Json, Error>>)
    ensures
        failures(answers).len() == 0 <==> forall|i: int|
            0 <= i < answers.len() ==> #[trigger] answers[i] is Ok,
    decreases answers.len(),
{
    if answers.len() > 0 {
        let rest = answers.drop_last();
        lemma_no_failures(rest);
        if forall|i: int| 0 <= i < rest.len() ==> #[trigger] rest[i] is Ok {
            assert forall|i: int| 0 <= i < answers.len() - 1 implies #[trigger] answers[i]
                is Ok by {
                assert(rest[i] == answers[i]);
            }
        } else {
            let i = choose|i: int| 0 <= i < rest.len() && !(#[trigger] rest[i] is Ok);
            assert(answers[i] == rest[i]);
        }
        assert(answers[answers.len() - 1] == answers.last());
    }
}

/// A chain of listeners calls each of them, in order, once; continuing it leads
/// to its first listener with the others left, and past the last one to the
/// built-in behaviour, or to the payload itself where there is none.
pub proof fn law_chain_calls_each_listener_once(
    listeners: Seq<Delivery>,
    chain: NextView,
    payload: Json,
    i: int,
)
    ensures
        callbacks(listeners).len() == listeners.len(),
        0 <= i < listeners.len() ==> callbacks(listeners)[i] == listeners[i].callback,
        chain.steps.len() > 0 ==> chain.run(payload) == (NextCallView::Listener {
            callback: chain.steps[0],
            ctx: chain.ctx,
            payload,
            rest: NextView {
                steps: chain.steps.skip(1),
                fallback: chain.fallback,
                ctx: chain.ctx,
            },
        }),
        chain.steps.len() == 0 && chain.fallback is Some ==> chain.run(payload) == (
        NextCallView::Fallback { fallback: chain.fallback.unwrap(), payload }),
        chain.steps.len() == 0 && chain.fallback is None ==> chain.run(payload)
            == NextCallView::Value(payload),
{
    assert(chain.steps.len() > 0 ==> chain.steps.skip(1) =~= chain.steps.drop_first());
}

} // verus!
