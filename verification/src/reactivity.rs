//! What holds of services across providing, withdrawing, reading and telling
//! dependents.

use vstd::prelude::*;

use crate::context::Context;
use crate::convergence::law_driver_converges;
use crate::effects::{effect_label, Refusal};
use crate::fiber::{
    disposal_order, epoch_of, inactive, law_epoch_active_iff_satisfied, DisposerView, EffectView,
    FiberState, FiberView, ProviderSnapshot,
};
use crate::resolve::{
    lemma_questions_fit, notice_fits, probes_fit, resolved, NoticeView, ProbeView, Reading,
};
use crate::root::RootView;
use crate::service::ServiceImpl;

verus! {

// ---------------------------------------------------------------------------
// Taking down answers
// ---------------------------------------------------------------------------

/// Some probe asks about the dependency `name` of `g`.
pub open spec fn asks(probes: Seq<ProbeView>, g: int, name: Seq<char>) -> bool {
    exists|i: int| #[trigger] asks_at(probes, i, g, name)
}

/// Probe `i` asks about the dependency `name` of `g`.
pub open spec fn asks_at(probes: Seq<ProbeView>, i: int, g: int, name: Seq<char>) -> bool {
    0 <= i < probes.len() && probes[i].fiber == g && probes[i].name == name
}

/// Answers change snapshots and nothing else.
pub proof fn lemma_answered_frame(
    root: RootView,
    probes: Seq<ProbeView>,
    verdicts: Seq<bool>,
    g: int,
)
    requires
        0 <= g < root.fibers.len(),
        probes_fit(probes, root.fibers.len()),
    ensures
        root.answered(probes, verdicts) == (RootView {
            fibers: root.answered(probes, verdicts).fibers,
            ..root
        }),
        root.answered(probes, verdicts).fibers.len() == root.fibers.len(),
        root.answered(probes, verdicts).fibers[g] == (FiberView {
            store: root.answered(probes, verdicts).fibers[g].store,
            ..root.fibers[g]
        }),
        (forall|i: int| 0 <= i < probes.len() ==> (#[trigger] probes[i]).fiber != g)
            ==> root.answered(probes, verdicts).fibers[g] == root.fibers[g],
    decreases probes.len(),
{
    if probes.len() > 0 {
        let rest = probes.drop_last();
        assert forall|i: int| 0 <= i < rest.len() implies 0 <= (#[trigger] rest[i]).fiber
            < root.fibers.len() by {
            assert(rest[i] == probes[i]);
        }
        lemma_answered_frame(root, rest, verdicts, g);
        let last = probes[probes.len() - 1];
        assert(0 <= last.fiber < root.fibers.len());
        if forall|i: int| 0 <= i < probes.len() ==> (#[trigger] probes[i]).fiber != g {
            assert forall|i: int| 0 <= i < rest.len() implies (#[trigger] rest[i]).fiber != g by {
                assert(rest[i] == probes[i]);
            }
        }
    }
}

/// A dependency whose every answer is no has no snapshot afterwards.
pub proof fn lemma_answered_no(
    root: RootView,
    probes: Seq<ProbeView>,
    verdicts: Seq<bool>,
    g: int,
    name: Seq<char>,
)
    requires
        0 <= g < root.fibers.len(),
        probes_fit(probes, root.fibers.len()),
        asks(probes, g, name),
        forall|i: int| #[trigger]
            asks_at(probes, i, g, name) ==> resolved(probes[i].candidate, verdicts[i]) is None,
    ensures
        !root.answered(probes, verdicts).fibers[g].store.contains_key(name),
    decreases probes.len(),
{
    let n = probes.len() - 1;
    let rest = probes.drop_last();
    assert(0 <= probes[n].fiber < root.fibers.len());
    assert(probes_fit(rest, root.fibers.len())) by {
        assert forall|i: int| 0 <= i < rest.len() implies 0 <= (#[trigger] rest[i]).fiber
            < root.fibers.len() by {
            assert(rest[i] == probes[i]);
        }
    }
    lemma_answered_frame(root, rest, verdicts, g);
    if asks_at(probes, n, g, name) {
        assert(resolved(probes[n].candidate, verdicts[n]) is None);
    } else {
        let i = choose|i: int| asks_at(probes, i, g, name);
        assert(asks_at(rest, i, g, name));
        assert forall|i: int| #[trigger] asks_at(rest, i, g, name) implies resolved(
            rest[i].candidate,
            verdicts[i],
        ) is None by {
            assert(asks_at(probes, i, g, name));
        }
        lemma_answered_no(root, rest, verdicts, g, name);
    }
}

/// A dependency whose every answer is yes has a snapshot afterwards; one that
/// nobody asked about keeps the one it had.
pub proof fn lemma_answered_yes(
    root: RootView,
    probes: Seq<ProbeView>,
    verdicts: Seq<bool>,
    g: int,
    name: Seq<char>,
)
    requires
        0 <= g < root.fibers.len(),
        probes_fit(probes, root.fibers.len()),
        asks(probes, g, name) || root.fibers[g].store.contains_key(name),
        forall|i: int| #[trigger]
            asks_at(probes, i, g, name) ==> resolved(probes[i].candidate, verdicts[i]) is Some,
    ensures
        root.answered(probes, verdicts).fibers[g].store.contains_key(name),
    decreases probes.len(),
{
    if probes.len() > 0 {
        let n = probes.len() - 1;
        let rest = probes.drop_last();
        assert(0 <= probes[n].fiber < root.fibers.len());
        assert(probes_fit(rest, root.fibers.len())) by {
            assert forall|i: int| 0 <= i < rest.len() implies 0 <= (#[trigger] rest[i]).fiber
                < root.fibers.len() by {
                assert(rest[i] == probes[i]);
            }
        }
        lemma_answered_frame(root, rest, verdicts, g);
        if asks_at(probes, n, g, name) {
            assert(resolved(probes[n].candidate, verdicts[n]) is Some);
        } else {
            if asks(probes, g, name) {
                let i = choose|i: int| asks_at(probes, i, g, name);
                assert(asks_at(rest, i, g, name));
            }
            assert forall|i: int| #[trigger] asks_at(rest, i, g, name) implies resolved(
                rest[i].candidate,
                verdicts[i],
            ) is Some by {
                assert(asks_at(probes, i, g, name));
            }
            lemma_answered_yes(root, rest, verdicts, g, name);
        }
    } else {
        assert(!asks(probes, g, name)) by {
            if asks(probes, g, name) {
                let i = choose|i: int| asks_at(probes, i, g, name);
            }
        }
    }
}

/// A dependency whose every answer is the same snapshot has that one
/// afterwards.
pub proof fn lemma_answered_value(
    root: RootView,
    probes: Seq<ProbeView>,
    verdicts: Seq<bool>,
    g: int,
    name: Seq<char>,
    snapshot: ProviderSnapshot,
)
    requires
        0 <= g < root.fibers.len(),
        probes_fit(probes, root.fibers.len()),
        asks(probes, g, name),
        forall|i: int| #[trigger]
            asks_at(probes, i, g, name) ==> resolved(probes[i].candidate, verdicts[i]) == Some(
                snapshot,
            ),
    ensures
        root.answered(probes, verdicts).fibers[g].store.contains_key(name),
        root.answered(probes, verdicts).fibers[g].store[name] == snapshot,
    decreases probes.len(),
{
    let n = probes.len() - 1;
    let rest = probes.drop_last();
    assert(0 <= probes[n].fiber < root.fibers.len());
    assert(probes_fit(rest, root.fibers.len())) by {
        assert forall|i: int| 0 <= i < rest.len() implies 0 <= (#[trigger] rest[i]).fiber
            < root.fibers.len() by {
            assert(rest[i] == probes[i]);
        }
    }
    lemma_answered_frame(root, rest, verdicts, g);
    if asks_at(probes, n, g, name) {
        assert(resolved(probes[n].candidate, verdicts[n]) == Some(snapshot));
    } else {
        let i = choose|i: int| asks_at(probes, i, g, name);
        assert(asks_at(rest, i, g, name));
        assert forall|i: int| #[trigger] asks_at(rest, i, g, name) implies resolved(
            rest[i].candidate,
            verdicts[i],
        ) == Some(snapshot) by {
            assert(asks_at(probes, i, g, name));
        }
        lemma_answered_value(root, rest, verdicts, g, name, snapshot);
    }
}

// ---------------------------------------------------------------------------
// What is asked
// ---------------------------------------------------------------------------

/// The first `n` dependencies of `f` are asked about exactly where stale, and
/// each question carries what the root has to offer.
pub proof fn lemma_questions(root: RootView, f: int, n: int, changed: Option<Seq<char>>)
    requires
        0 <= n <= root.fibers[f].inject.len(),
    ensures
        forall|i: int|
            0 <= i < root.questions(f, n, changed).len() ==> {
                let p = #[trigger] root.questions(f, n, changed)[i];
                &&& p.fiber == f
                &&& root.fibers[f].inject.contains(p.name)
                &&& root.stale(f, p.name, changed)
                &&& p.candidate == root.candidate(root.fibers[f].ctx, p.name)
            },
        forall|j: int|
            0 <= j < n && root.stale(f, #[trigger] root.fibers[f].inject[j], changed) ==> asks(
                root.questions(f, n, changed),
                f,
                root.fibers[f].inject[j],
            ),
    decreases n,
{
    if n > 0 {
        lemma_questions(root, f, n - 1, changed);
        let earlier = root.questions(f, n - 1, changed);
        let all = root.questions(f, n, changed);
        assert forall|j: int|
            0 <= j < n && root.stale(f, #[trigger] root.fibers[f].inject[j], changed) implies asks(
            all,
            f,
            root.fibers[f].inject[j],
        ) by {
            let name = root.fibers[f].inject[j];
            if j < n - 1 {
                let i = choose|i: int| asks_at(earlier, i, f, name);
                assert(asks_at(all, i, f, name));
            } else {
                assert(asks_at(all, all.len() - 1, f, name));
            }
        }
    }
}

/// An inquiry asks about the listed fibers only, with what the root has to
/// offer, and about each of them as it should.
pub proof fn lemma_inquiry(root: RootView, fibers: Seq<usize>, changed: Seq<char>)
    ensures
        forall|i: int|
            0 <= i < root.inquiry(fibers, changed).len() ==> {
                let p = #[trigger] root.inquiry(fibers, changed)[i];
                &&& exists|k: int| 0 <= k < fibers.len() && #[trigger] fibers[k] == p.fiber
                &&& root.fibers[p.fiber].inject.contains(p.name)
                &&& root.stale(p.fiber, p.name, Some(changed))
                &&& p.candidate == root.candidate(root.fibers[p.fiber].ctx, p.name)
            },
        forall|k: int, j: int|
            #![trigger fibers[k], root.fibers[fibers[k] as int].inject[j]]
            0 <= k < fibers.len() && 0 <= j < root.fibers[fibers[k] as int].inject.len()
                && root.stale(
                fibers[k] as int,
                root.fibers[fibers[k] as int].inject[j],
                Some(changed),
            ) ==> asks(
                root.inquiry(fibers, changed),
                fibers[k] as int,
                root.fibers[fibers[k] as int].inject[j],
            ),
    decreases fibers.len(),
{
    if fibers.len() > 0 {
        let rest = fibers.drop_last();
        let f = fibers.last() as int;
        let earlier = root.inquiry(rest, changed);
        let last = root.all_questions(f, Some(changed));
        let all = root.inquiry(fibers, changed);
        lemma_inquiry(root, rest, changed);
        lemma_questions(root, f, root.fibers[f].inject.len() as int, Some(changed));
        assert forall|i: int| 0 <= i < all.len() implies {
            let p = #[trigger] all[i];
            &&& exists|k: int| 0 <= k < fibers.len() && #[trigger] fibers[k] == p.fiber
            &&& root.fibers[p.fiber].inject.contains(p.name)
            &&& root.stale(p.fiber, p.name, Some(changed))
            &&& p.candidate == root.candidate(root.fibers[p.fiber].ctx, p.name)
        } by {
            if i < earlier.len() {
                assert(all[i] == earlier[i]);
                let k = choose|k: int|
                    0 <= k < rest.len() && #[trigger] rest[k] == earlier[i].fiber;
                assert(fibers[k] == all[i].fiber);
            } else {
                assert(all[i] == last[i - earlier.len()]);
                assert(fibers[fibers.len() - 1] == all[i].fiber);
            }
        }
        assert forall|k: int, j: int|
            #![trigger fibers[k], root.fibers[fibers[k] as int].inject[j]]
            0 <= k < fibers.len() && 0 <= j < root.fibers[fibers[k] as int].inject.len()
                && root.stale(
                fibers[k] as int,
                root.fibers[fibers[k] as int].inject[j],
                Some(changed),
            ) implies asks(
            all,
            fibers[k] as int,
            root.fibers[fibers[k] as int].inject[j],
        ) by {
            let g = fibers[k] as int;
            let name = root.fibers[g].inject[j];
            if k < rest.len() {
                assert(rest[k] == fibers[k]);
                assert(root.fibers[rest[k] as int].inject[j] == name);
                assert(root.stale(rest[k] as int, name, Some(changed)));
                assert(asks(earlier, g, name));
                let i = choose|i: int| asks_at(earlier, i, g, name);
                assert(asks_at(all, i, g, name));
            } else {
                assert(asks(last, g, name));
                let i = choose|i: int| asks_at(last, i, g, name);
                assert(asks_at(all, earlier.len() + i, g, name));
            }
        }
    }
}

/// The audience is the interested fibers, each once, in order of age.
pub proof fn law_audience_is_the_interested(root: RootView, n: int, name: Seq<char>, label: u64)
    requires
        0 <= n <= root.fibers.len(),
        root.fibers.len() <= usize::MAX,
    ensures
        forall|i: int, j: int|
            0 <= i < j < root.audience(n, name, label).len() ==> #[trigger] root.audience(
                n,
                name,
                label,
            )[i] < #[trigger] root.audience(n, name, label)[j],
        forall|i: int|
            0 <= i < root.audience(n, name, label).len() ==> (#[trigger] root.audience(
                n,
                name,
                label,
            )[i]) < n && root.interested(root.audience(n, name, label)[i] as int, name, label),
        forall|g: int|
            0 <= g < n && #[trigger] root.interested(g, name, label) ==> root.audience(
                n,
                name,
                label,
            ).contains(g as usize),
    decreases n,
{
    if n > 0 {
        law_audience_is_the_interested(root, n - 1, name, label);
        let earlier = root.audience(n - 1, name, label);
        let all = root.audience(n, name, label);
        assert forall|g: int| 0 <= g < n && #[trigger] root.interested(g, name, label) implies
            all.contains(g as usize) by {
            if g < n - 1 {
                assert(earlier.contains(g as usize));
                let i = choose|i: int| 0 <= i < earlier.len() && earlier[i] == g as usize;
                assert(all[i] == g as usize);
            } else {
                assert(all[all.len() - 1] == g as usize);
            }
        }
    }
}

// ---------------------------------------------------------------------------
// Refreshing
// ---------------------------------------------------------------------------

/// Refreshing a fiber touches what drives it, and no other fiber.
pub proof fn lemma_refreshed(root: RootView, f: int, g: int)
    requires
        0 <= f < root.fibers.len(),
        0 <= g < root.fibers.len(),
    ensures
        root.refreshed(f).fibers.len() == root.fibers.len(),
        root.refreshed(f).services == root.services,
        root.refreshed(f).hooks == root.hooks,
        root.refreshed(f).registry == root.registry,
        f != g ==> root.refreshed(f).fibers[g] == root.fibers[g],
        root.refreshed(g).fibers[g] == root.fibers[g].refreshing(),
        root.refreshed(f).fibers[g].store == root.fibers[g].store,
        root.refreshed(f).fibers[g].inject == root.fibers[g].inject,
        root.refreshed(f).fibers[g].loaded == root.fibers[g].loaded,
        root.refreshed(f).fibers[g].uid == root.fibers[g].uid,
        root.refreshed(f).fibers[g].runtime == root.fibers[g].runtime,
        root.refreshed(f).fibers[g].error == root.fibers[g].error,
        root.fibers[g].running ==> root.refreshed(f).fibers[g].running,
{
}

pub proof fn lemma_refreshed_all(root: RootView, fibers: Seq<usize>, g: int)
    requires
        0 <= g < root.fibers.len(),
        forall|i: int| 0 <= i < fibers.len() ==> (#[trigger] fibers[i]) < root.fibers.len(),
    ensures
        root.refreshed_all(fibers).fibers.len() == root.fibers.len(),
        root.refreshed_all(fibers).services == root.services,
        root.refreshed_all(fibers).hooks == root.hooks,
        root.refreshed_all(fibers).registry == root.registry,
        root.refreshed_all(fibers).fibers[g].store == root.fibers[g].store,
        root.refreshed_all(fibers).fibers[g].inject == root.fibers[g].inject,
        root.refreshed_all(fibers).fibers[g].loaded == root.fibers[g].loaded,
        root.refreshed_all(fibers).fibers[g].uid == root.fibers[g].uid,
        root.refreshed_all(fibers).fibers[g].runtime == root.fibers[g].runtime,
        root.refreshed_all(fibers).fibers[g].error == root.fibers[g].error,
        root.fibers[g].running ==> root.refreshed_all(fibers).fibers[g].running,
        (exists|i: int| 0 <= i < fibers.len() && #[trigger] fibers[i] == g)
            ==> root.refreshed_all(fibers).fibers[g] == root.fibers[g].refreshing(),
        !(exists|i: int| 0 <= i < fibers.len() && #[trigger] fibers[i] == g)
            ==> root.refreshed_all(fibers).fibers[g] == root.fibers[g],
    decreases fibers.len(),
{
    if fibers.len() > 0 {
        let rest = fibers.drop_last();
        let f = fibers.last() as int;
        assert forall|i: int| 0 <= i < rest.len() implies (#[trigger] rest[i])
            < root.fibers.len() by {
            assert(rest[i] == fibers[i]);
        }
        assert(fibers[fibers.len() - 1] < root.fibers.len());
        lemma_refreshed_all(root, rest, g);
        lemma_refreshed(root.refreshed_all(rest), f, g);
        let member = exists|i: int| 0 <= i < fibers.len() && #[trigger] fibers[i] == g;
        if f == g {
            assert(fibers[fibers.len() - 1] == g);
        } else if member {
            let i = choose|i: int| 0 <= i < fibers.len() && #[trigger] fibers[i] == g;
            assert(rest[i] == g);
        } else if exists|i: int| 0 <= i < rest.len() && #[trigger] rest[i] == g {
            let i = choose|i: int| 0 <= i < rest.len() && #[trigger] rest[i] == g;
            assert(fibers[i] == g);
        }
    }
}

/// Making a change known leaves every driver running.
pub proof fn lemma_drivers_stay(
    root: RootView,
    notice: NoticeView,
    verdicts: Seq<bool>,
    g: int,
)
    requires
        notice_fits(notice, root.fibers.len()),
        0 <= g < root.fibers.len(),
        root.fibers[g].running,
    ensures
        root.notified(notice, verdicts).fibers[g].running,
{
    lemma_answered_frame(root, notice.probes, verdicts, g);
    lemma_refreshed_all(root.answered(notice.probes, verdicts), notice.fibers, g);
}

// ---------------------------------------------------------------------------
// Dependents follow their services
// ---------------------------------------------------------------------------

pub proof fn lemma_notice_fits(root: RootView, ctx: Context, name: Seq<char>, label: u64)
    requires
        root.fibers.len() <= usize::MAX,
    ensures
        forall|i: int|
            0 <= i < root.notice_at(ctx, name, label).fibers.len() ==> (#[trigger] root.notice_at(
                ctx,
                name,
                label,
            ).fibers[i]) < root.fibers.len(),
        probes_fit(root.notice_at(ctx, name, label).probes, root.fibers.len()),
{
    let notice = root.notice_at(ctx, name, label);
    law_audience_is_the_interested(root, root.fibers.len() as int, name, notice.label);
    lemma_inquiry(root, notice.fibers, name);
    assert forall|i: int| 0 <= i < notice.probes.len() implies 0 <= (
    #[trigger] notice.probes[i]).fiber < root.fibers.len() by {
        let p = notice.probes[i];
        let k = choose|k: int| 0 <= k < notice.fibers.len() && #[trigger] notice.fibers[k]
            == p.fiber;
        assert(notice.fibers[k] < root.fibers.len());
    }
}

/// A change of a service reaches exactly its dependents in the scope of the
/// change: each of them takes down snapshots and desires what they then call
/// for, and every other fiber is as it was. Nothing is registered or removed
/// by it.
pub proof fn law_change_reaches_its_dependents(
    root: RootView,
    ctx: Context,
    name: Seq<char>,
    label: u64,
    verdicts: Seq<bool>,
    g: int,
)
    requires
        root.fibers.len() <= usize::MAX,
        0 <= g < root.fibers.len(),
    ensures
        root.interested(g, name, label) ==> root.notified(
            root.notice_at(ctx, name, label),
            verdicts,
        ).fibers[g].desired == root.notified(
            root.notice_at(ctx, name, label),
            verdicts,
        ).fibers[g].epoch(),
        root.interested(g, name, label) ==> root.notified(
            root.notice_at(ctx, name, label),
            verdicts,
        ).fibers[g] == (FiberView {
            store: root.notified(root.notice_at(ctx, name, label), verdicts).fibers[g].store,
            ..root.fibers[g]
        }).refreshing(),
        !root.interested(g, name, label) ==> root.notified(
            root.notice_at(ctx, name, label),
            verdicts,
        ).fibers[g] == root.fibers[g],
        root.notified(root.notice_at(ctx, name, label), verdicts).fibers[g].loaded
            == root.fibers[g].loaded,
        root.notified(root.notice_at(ctx, name, label), verdicts).fibers.len() == root.fibers.len(),
        root.notified(root.notice_at(ctx, name, label), verdicts).services == root.services,
        root.notified(root.notice_at(ctx, name, label), verdicts).registry == root.registry,
        root.notified(root.notice_at(ctx, name, label), verdicts).hooks == root.hooks,
{
    let notice = root.notice_at(ctx, name, label);
    law_audience_is_the_interested(root, root.fibers.len() as int, name, notice.label);
    lemma_notice_fits(root, ctx, name, label);
    lemma_inquiry(root, notice.fibers, name);
    lemma_answered_frame(root, notice.probes, verdicts, g);
    lemma_refreshed_all(root.answered(notice.probes, verdicts), notice.fibers, g);
    if root.interested(g, name, notice.label) {
        assert(notice.fibers.contains(g as usize));
        let k = choose|k: int| 0 <= k < notice.fibers.len() && notice.fibers[k] == g as usize;
        assert(notice.fibers[k] == g);
    } else {
        assert(!(exists|k: int| 0 <= k < notice.fibers.len() && #[trigger] notice.fibers[k] == g))
            by {
            if exists|k: int| 0 <= k < notice.fibers.len() && #[trigger] notice.fibers[k] == g {
                let k = choose|k: int| 0 <= k < notice.fibers.len() && #[trigger] notice.fibers[k]
                    == g;
                assert(root.interested(notice.fibers[k] as int, name, notice.label));
            }
        }
        assert forall|i: int| 0 <= i < notice.probes.len() implies (
        #[trigger] notice.probes[i]).fiber != g by {
            let p = notice.probes[i];
            let k = choose|k: int| 0 <= k < notice.fibers.len() && #[trigger] notice.fibers[k]
                == p.fiber;
        }
    }
}

/// Where no active provider of a service is left in a scope, a change of it
/// sends every dependent there to unload: the desired epoch is the inactive
/// one, whatever else the dependent has.
pub proof fn law_loss_parks_dependents(
    root: RootView,
    ctx: Context,
    name: Seq<char>,
    label: u64,
    verdicts: Seq<bool>,
    g: int,
)
    requires
        root.fibers.len() <= usize::MAX,
        0 <= g < root.fibers.len(),
        root.available_at(name, label) is None,
        root.interested(g, name, label),
    ensures
        root.notified(root.notice_at(ctx, name, label), verdicts).fibers[g].desired == inactive(),
{
    let notice = root.notice_at(ctx, name, label);
    let told = root.answered(notice.probes, verdicts);
    law_change_reaches_its_dependents(root, ctx, name, label, verdicts, g);
    law_audience_is_the_interested(root, root.fibers.len() as int, name, notice.label);
    lemma_notice_fits(root, ctx, name, label);
    lemma_inquiry(root, notice.fibers, name);
    lemma_answered_frame(root, notice.probes, verdicts, g);
    lemma_refreshed_all(told, notice.fibers, g);
    assert(notice.fibers.contains(g as usize));
    let k = choose|k: int| 0 <= k < notice.fibers.len() && notice.fibers[k] == g as usize;
    let inject = root.fibers[g].inject;
    let j = choose|j: int| 0 <= j < inject.len() && inject[j] == name;
    assert(root.stale(g, name, Some(name)));
    assert(notice.fibers[k] as int == g);
    assert(root.fibers[notice.fibers[k] as int].inject[j] == name);
    assert(asks(notice.probes, g, name));
    assert(root.candidate(root.fibers[g].ctx, name) is None);
    assert forall|i: int| #[trigger] asks_at(notice.probes, i, g, name) implies resolved(
        notice.probes[i].candidate,
        verdicts[i],
    ) is None by {
        assert(notice.probes[i].candidate == root.candidate(root.fibers[g].ctx, name));
    }
    lemma_answered_no(root, notice.probes, verdicts, g, name);
    assert(!told.fibers[g].store.contains_key(inject[j]));
    assert(told.fibers[g].epoch() == inactive());
}

/// Every dependency of `g` is to be had: it has a snapshot already, or the
/// root offers one.
pub open spec fn all_to_be_had(root: RootView, g: int, changed: Seq<char>) -> bool {
    forall|j: int|
        0 <= j < root.fibers[g].inject.len() && root.stale(
            g,
            #[trigger] root.fibers[g].inject[j],
            Some(changed),
        ) ==> root.candidate(root.fibers[g].ctx, root.fibers[g].inject[j]) is Some
}

/// Once every required service of a dependent is to be had and the
/// availability predicates agree, a change of one of them sends it to load:
/// the desired epoch is the one of its providers, and the snapshot of what
/// changed is fresh.
pub proof fn law_return_wakes_dependents(
    root: RootView,
    ctx: Context,
    name: Seq<char>,
    label: u64,
    verdicts: Seq<bool>,
    g: int,
)
    requires
        root.fibers.len() <= usize::MAX,
        0 <= g < root.fibers.len(),
        root.interested(g, name, label),
        all_to_be_had(root, g, name),
        verdicts.len() == root.notice_at(ctx, name, label).probes.len(),
        forall|i: int| 0 <= i < verdicts.len() ==> #[trigger] verdicts[i],
    ensures
        root.notified(root.notice_at(ctx, name, label), verdicts).fibers[g].desired != inactive(),
        root.notified(root.notice_at(ctx, name, label), verdicts).fibers[g].desired == epoch_of(
            root.fibers[g].inject,
            root.notified(root.notice_at(ctx, name, label), verdicts).fibers[g].store,
        ),
        root.notified(root.notice_at(ctx, name, label), verdicts).fibers[g].store.contains_key(
            name,
        ),
        root.candidate(root.fibers[g].ctx, name) matches Some(c) && root.notified(
            root.notice_at(ctx, name, label),
            verdicts,
        ).fibers[g].store[name] == c.snapshot,
{
    let notice = root.notice_at(ctx, name, label);
    let told = root.answered(notice.probes, verdicts);
    law_change_reaches_its_dependents(root, ctx, name, label, verdicts, g);
    law_audience_is_the_interested(root, root.fibers.len() as int, name, notice.label);
    lemma_notice_fits(root, ctx, name, label);
    lemma_inquiry(root, notice.fibers, name);
    lemma_answered_frame(root, notice.probes, verdicts, g);
    lemma_refreshed_all(told, notice.fibers, g);
    assert(notice.fibers.contains(g as usize));
    let k = choose|k: int| 0 <= k < notice.fibers.len() && notice.fibers[k] == g as usize;
    assert(notice.fibers[k] as int == g);
    let inject = root.fibers[g].inject;
    assert forall|j: int| 0 <= j < inject.len() implies told.fibers[g].store.contains_key(
        #[trigger] inject[j],
    ) by {
        let service = inject[j];
        if root.stale(g, service, Some(name)) {
            assert(root.fibers[notice.fibers[k] as int].inject[j] == service);
            assert(asks(notice.probes, g, service));
        }
        assert forall|i: int| #[trigger] asks_at(notice.probes, i, g, service) implies resolved(
            notice.probes[i].candidate,
            verdicts[i],
        ) is Some by {
            assert(notice.probes[i].candidate == root.candidate(root.fibers[g].ctx, service));
            assert(root.stale(g, service, Some(name)));
            assert(verdicts[i]);
        }
        lemma_answered_yes(root, notice.probes, verdicts, g, service);
    }
    let at = choose|j: int| 0 <= j < inject.len() && inject[j] == name;
    assert(root.stale(g, name, Some(name)));
    assert(root.fibers[notice.fibers[k] as int].inject[at] == name);
    assert(asks(notice.probes, g, name));
    let fresh = root.candidate(root.fibers[g].ctx, name).unwrap().snapshot;
    assert forall|i: int| #[trigger] asks_at(notice.probes, i, g, name) implies resolved(
        notice.probes[i].candidate,
        verdicts[i],
    ) == Some(fresh) by {
        assert(notice.probes[i].candidate == root.candidate(root.fibers[g].ctx, name));
        assert(verdicts[i]);
    }
    lemma_answered_value(root, notice.probes, verdicts, g, name, fresh);
    law_epoch_active_iff_satisfied(inject, told.fibers[g].store);
}

/// Withdrawing a service parks its dependents in that scope: told of it, each
/// of them desires to stop, and its driver brings it to rest with nothing
/// loaded, pending until the service returns.
pub proof fn law_withdrawal_parks_dependents(
    root: RootView,
    ctx: Context,
    name: Seq<char>,
    verdicts: Seq<bool>,
    g: int,
)
    requires
        root.fibers.len() <= usize::MAX,
        0 <= g < root.fibers.len(),
        root.interested(g, name, ctx.label_of(name)),
        root.fibers[g].runtime is Some,
        root.fibers[g].error is None,
    ensures
        ({
            let withdrawn = root.undone(DisposerView::Withdraw { ctx, name });
            let told = withdrawn.notified(withdrawn.notice(ctx, name), verdicts);
            &&& told.fibers[g].desired == inactive()
            &&& told.fibers[g].rounds(3, None).at_rest()
            &&& told.fibers[g].rounds(3, None).loaded == inactive()
            &&& told.fibers[g].rounds(3, None).state == FiberState::Pending
        }),
{
    let withdrawn = root.undone(DisposerView::Withdraw { ctx, name });
    let told = withdrawn.notified(withdrawn.notice(ctx, name), verdicts);
    assert(withdrawn.fibers.len() == root.fibers.len());
    assert(withdrawn.interested(g, name, ctx.label_of(name)));
    assert(withdrawn.available(ctx, name) is None);
    law_loss_parks_dependents(withdrawn, ctx, name, ctx.label_of(name), verdicts, g);
    let notice = withdrawn.notice(ctx, name);
    law_audience_is_the_interested(withdrawn, withdrawn.fibers.len() as int, name, notice.label);
    lemma_notice_fits(withdrawn, ctx, name, ctx.label_of(name));
    lemma_answered_frame(withdrawn, notice.probes, verdicts, g);
    lemma_refreshed_all(withdrawn.answered(notice.probes, verdicts), notice.fibers, g);
    assert(told.fibers[g].uid is Some);
    assert(told.fibers[g].runtime is Some);
    assert(told.fibers[g].error is None);
    law_driver_converges(told.fibers[g], None);
    reveal_with_fuel(FiberView::rounds, 4);
}

/// A fiber just created waits for its services: where one of them is not to
/// be had it does not desire to run; where all are, and the availability
/// predicates agree, it does.
pub proof fn law_new_fiber_waits_for_its_services(root: RootView, f: int, verdicts: Seq<bool>)
    requires
        0 <= f < root.fibers.len(),
        root.fibers[f].store == Map::<Seq<char>, ProviderSnapshot>::empty(),
        verdicts.len() == root.all_questions(f, None).len(),
    ensures
        (exists|j: int|
            0 <= j < root.fibers[f].inject.len() && root.candidate(
                root.fibers[f].ctx,
                #[trigger] root.fibers[f].inject[j],
            ) is None) ==> root.answered(root.all_questions(f, None), verdicts).refreshed(
            f,
        ).fibers[f].desired == inactive(),
        (forall|j: int|
            0 <= j < root.fibers[f].inject.len() ==> root.candidate(
                root.fibers[f].ctx,
                #[trigger] root.fibers[f].inject[j],
            ) is Some) && (forall|i: int| 0 <= i < verdicts.len() ==> #[trigger] verdicts[i])
            ==> root.answered(root.all_questions(f, None), verdicts).refreshed(
            f,
        ).fibers[f].desired != inactive(),
{
    let probes = root.all_questions(f, None);
    let inject = root.fibers[f].inject;
    let told = root.answered(probes, verdicts);
    lemma_questions(root, f, inject.len() as int, None);
    lemma_questions_fit(root, f, inject.len() as int, None);
    lemma_answered_frame(root, probes, verdicts, f);
    lemma_refreshed(told, f, f);
    if exists|j: int|
        0 <= j < inject.len() && root.candidate(
            root.fibers[f].ctx,
            #[trigger] inject[j],
        ) is None {
        let j = choose|j: int|
            0 <= j < inject.len() && root.candidate(
                root.fibers[f].ctx,
                #[trigger] inject[j],
            ) is None;
        assert(root.stale(f, inject[j], None));
        assert forall|i: int| #[trigger] asks_at(probes, i, f, inject[j]) implies resolved(
            probes[i].candidate,
            verdicts[i],
        ) is None by {
            assert(probes[i].candidate == root.candidate(root.fibers[f].ctx, inject[j]));
        }
        lemma_answered_no(root, probes, verdicts, f, inject[j]);
        assert(!told.fibers[f].store.contains_key(inject[j]));
    } else if forall|i: int| 0 <= i < verdicts.len() ==> #[trigger] verdicts[i] {
        assert forall|j: int| 0 <= j < inject.len() implies told.fibers[f].store.contains_key(
            #[trigger] inject[j],
        ) by {
            assert(root.stale(f, inject[j], None));
            assert(root.candidate(root.fibers[f].ctx, inject[j]) is Some);
            assert forall|i: int| #[trigger] asks_at(probes, i, f, inject[j]) implies resolved(
                probes[i].candidate,
                verdicts[i],
            ) is Some by {
                assert(probes[i].candidate == root.candidate(root.fibers[f].ctx, inject[j]));
                assert(verdicts[i]);
            }
            lemma_answered_yes(root, probes, verdicts, f, inject[j]);
        }
        law_epoch_active_iff_satisfied(inject, told.fibers[f].store);
    }
}

// ---------------------------------------------------------------------------
// Providing, withdrawing, reading
// ---------------------------------------------------------------------------

/// Withdrawing undoes providing: the store of services is what it was, and
/// the scope is free for another implementation.
pub proof fn law_withdrawal_undoes_registration(
    root: RootView,
    ctx: Context,
    op: Seq<char>,
    name: Seq<char>,
    service: ServiceImpl,
)
    requires
        root.provide_refusal(ctx, name) is None,
    ensures
        root.registered(ctx, op, name, service).undone(
            DisposerView::Withdraw { ctx, name },
        ).services == root.services,
        root.registered(ctx, op, name, service).undone(
            DisposerView::Withdraw { ctx, name },
        ).visible(ctx, name) is None,
{
    let after = root.registered(ctx, op, name, service);
    assert(after.undone(DisposerView::Withdraw { ctx, name }).services =~= root.services);
}

/// A registered service is the newest effect of its owner: unloading the
/// owner withdraws it, and withdraws it first.
pub proof fn law_registration_ends_with_its_owner(
    root: RootView,
    ctx: Context,
    op: Seq<char>,
    name: Seq<char>,
    service: ServiceImpl,
    f: int,
)
    requires
        ctx.fiber == Some(f as usize),
        0 <= f < root.fibers.len() <= usize::MAX,
    ensures
        disposal_order(root.registered(ctx, op, name, service).fibers[f].effects) == seq![
            DisposerView::Withdraw { ctx, name },
        ] + disposal_order(root.fibers[f].effects),
        root.registered(ctx, op, name, service).fibers[f].effects.last() == Some(
            EffectView {
                id: root.fibers[f].next_effect_id,
                label: effect_label(op, name),
                disposer: DisposerView::Withdraw { ctx, name },
            },
        ),
{
    let after = root.registered(ctx, op, name, service).fibers[f].effects;
    assert(after.drop_last() =~= root.fibers[f].effects);
}

/// No scope ever gets a second implementation: once a service is registered,
/// registering it again from a context that resolves the name to the same
/// scope is refused.
pub proof fn law_second_registration_is_refused(
    root: RootView,
    ctx: Context,
    other: Context,
    op: Seq<char>,
    name: Seq<char>,
    service: ServiceImpl,
    g: int,
)
    requires
        root.provide_refusal(ctx, name) is None,
        (ctx.fiber.unwrap() as int) < root.fibers.len(),
        other.label_of(name) == ctx.label_of(name),
        other.fiber == Some(g as usize),
        0 <= g < root.fibers.len() <= usize::MAX,
        root.fibers[g].uid is Some,
    ensures
        root.registered(ctx, op, name, service).provide_refusal(other, name) == Some(
            Refusal::Duplicate,
        ),
{
}

/// What one scope has is nobody else's: registering a service changes what no
/// context sees that resolves the name to another label, and no other name.
pub proof fn law_scopes_are_independent(
    root: RootView,
    ctx: Context,
    other: Context,
    op: Seq<char>,
    name: Seq<char>,
    service: ServiceImpl,
    asked: Seq<char>,
)
    requires
        asked != name || other.label_of(name) != ctx.label_of(name),
    ensures
        root.registered(ctx, op, name, service).visible(other, asked) == root.visible(
            other,
            asked,
        ),
{
}

/// A context that resolves the name to the same scope reads what was
/// provided, once the provider is active, unless it holds a snapshot of its
/// own.
pub proof fn law_provided_is_read(
    root: RootView,
    ctx: Context,
    reader: Context,
    op: Seq<char>,
    name: Seq<char>,
    service: ServiceImpl,
)
    requires
        reader.label_of(name) == ctx.label_of(name),
        root.registered(ctx, op, name, service).provider_live(service.provider_uid),
        root.registered(ctx, op, name, service).injected(reader, name) is None,
    ensures
        root.registered(ctx, op, name, service).reading(reader, name)
            == match service.compute {
            Some(producer) => Reading::Compute(producer),
            None => Reading::Value(service.value),
        },
{
}

/// Reads of a service whose provider is not active miss, but for dependents
/// that hold a snapshot of it.
pub proof fn law_inactive_provider_is_not_read(root: RootView, reader: Context, name: Seq<char>)
    requires
        root.visible(reader, name) matches Some(service) && !root.provider_live(
            service.provider_uid,
        ),
        root.injected(reader, name) is None,
    ensures
        root.reading(reader, name) == Reading::Missing,
        root.candidate(reader, name) is None,
{
}

/// A computed service is never cached: the snapshot that a dependent takes of
/// it says so, and with such a snapshot a read is still left to the producer.
pub proof fn law_computed_is_never_cached(
    root: RootView,
    reader: Context,
    name: Seq<char>,
    producer: u64,
)
    requires
        root.available(reader, name) matches Some(service) && service.compute == Some(producer),
        root.injected(reader, name) matches Some(snapshot) ==> snapshot.dynamic,
    ensures
        root.candidate(reader, name) matches Some(c) && c.snapshot.dynamic,
        root.reading(reader, name) == Reading::Compute(producer),
{
}

/// A dependent reads from its snapshot, whatever has become of the store
/// since.
pub proof fn law_snapshot_is_preferred(
    root: RootView,
    reader: Context,
    name: Seq<char>,
    snapshot: ProviderSnapshot,
)
    requires
        root.injected(reader, name) == Some(snapshot),
        !snapshot.dynamic,
    ensures
        root.reading(reader, name) == Reading::Value(snapshot.value),
{
}

/// What was set is what is read by whoever holds no snapshot of its own; what
/// it was registered with beyond its value stays.
pub proof fn law_set_is_read(
    root: RootView,
    after: RootView,
    ctx: Context,
    reader: Context,
    name: Seq<char>,
    value: u64,
)
    requires
        root.available(ctx, name) matches Some(service) && service.compute is None,
        after == (RootView {
            services: root.services.insert(
                (name, ctx.label_of(name)),
                ServiceImpl { value, ..root.visible(ctx, name).unwrap() },
            ),
            ..root
        }),
        reader.label_of(name) == ctx.label_of(name),
        root.injected(reader, name) is None,
    ensures
        after.reading(reader, name) == Reading::Value(value),
        after.visible(ctx, name) matches Some(service) && service.provider_uid == root.visible(
            ctx,
            name,
        ).unwrap().provider_uid,
{
}

} // verus!
