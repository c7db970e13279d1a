//! Plugin fibers: lifecycle state, epochs and effects of one fiber.
//!
//! One fiber is one running instance of a plugin application. It tracks its
//! required services, an *epoch* fingerprint of the providers that satisfy
//! them, and every effect created while the plugin body ran. When the set of
//! providers changes, the epoch changes and the fiber converges: unload
//! (disposers in reverse order of registration) and/or load again.

use vstd::prelude::*;
use vstd::seq_lib::seq_to_set_is_finite;
use vstd::set_lib::{lemma_int_range, lemma_len_subset, set_int_range};

use crate::context::Context;
use crate::error::{Error, ErrorView};
use crate::json::Json;
use crate::names::NameMap;
use crate::plugin::{service_names, Injection};
use crate::text::{lemma_last_separator, lemma_numeral_injective, lemma_numeral_is_digits, numeral};

verus! {

/// Lifecycle state of a fiber.
#[derive(Debug, Clone, Copy, PartialEq, Eq, Structural)]
pub enum FiberState {
    /// Registered but waiting for required services.
    Pending,
    /// Running the plugin body right now.
    Loading,
    /// The plugin body completed and all effects are live.
    Active,
    /// Startup failed; the fiber waits for dependency changes to retry.
    Failed,
    /// Draining effects after deactivation.
    Unloading,
    /// Fully disposed; uid cleared.
    Disposed,
}

impl FiberState {
    /// The name of a state.
    pub open spec fn text(self) -> Seq<char> {
        match self {
            FiberState::Pending => "pending"@,
            FiberState::Loading => "loading"@,
            FiberState::Active => "active"@,
            FiberState::Failed => "failed"@,
            FiberState::Unloading => "unloading"@,
            FiberState::Disposed => "disposed"@,
        }
    }

    pub fn as_str(self) -> (res: &'static str)
        ensures
            res@ == self.text(),
            match self {
                FiberState::Pending => res@ == "pending"@,
                FiberState::Loading => res@ == "loading"@,
                FiberState::Active => res@ == "active"@,
                FiberState::Failed => res@ == "failed"@,
                FiberState::Unloading => res@ == "unloading"@,
                FiberState::Disposed => res@ == "disposed"@,
            },
    {
        match self {
            FiberState::Pending => "pending",
            FiberState::Loading => "loading",
            FiberState::Active => "active",
            FiberState::Failed => "failed",
            FiberState::Unloading => "unloading",
            FiberState::Disposed => "disposed",
        }
    }

    /// The byte that stands for a state in the state mirror.
    pub open spec fn code(self) -> u8 {
        match self {
            FiberState::Pending => 0u8,
            FiberState::Loading => 1u8,
            FiberState::Active => 2u8,
            FiberState::Failed => 3u8,
            FiberState::Unloading => 4u8,
            FiberState::Disposed => 5u8,
        }
    }

    pub fn repr(self) -> (res: u8)
        ensures
            res == self.code(),
    {
        match self {
            FiberState::Pending => 0u8,
            FiberState::Loading => 1u8,
            FiberState::Active => 2u8,
            FiberState::Failed => 3u8,
            FiberState::Unloading => 4u8,
            FiberState::Disposed => 5u8,
        }
    }

    /// Decode a byte of the state mirror; unknown bytes stand for no state.
    pub fn from_repr(value: u8) -> (res: Option<FiberState>)
        ensures
            match res {
                Some(state) => state.code() == value,
                None => value > 5,
            },
    {
        match value {
            0u8 => Some(FiberState::Pending),
            1u8 => Some(FiberState::Loading),
            2u8 => Some(FiberState::Active),
            3u8 => Some(FiberState::Failed),
            4u8 => Some(FiberState::Unloading),
            5u8 => Some(FiberState::Disposed),
            _ => None,
        }
    }
}

/// The state a byte of the mirror stands for; unknown bytes read as pending.
pub open spec fn mirrored_state(value: u8) -> FiberState {
    if value == 1 {
        FiberState::Loading
    } else if value == 2 {
        FiberState::Active
    } else if value == 3 {
        FiberState::Failed
    } else if value == 4 {
        FiberState::Unloading
    } else if value == 5 {
        FiberState::Disposed
    } else {
        FiberState::Pending
    }
}

/// What a dependent remembers of the provider of one of its services.
#[derive(Debug, Clone, Copy, PartialEq, Eq, Structural)]
pub struct ProviderSnapshot {
    pub provider_uid: u64,
    /// The provided value, by number; meaningless for computed services.
    pub value: u64,
    /// Computed entries are evaluated anew on every read.
    pub dynamic: bool,
}

/// What undoing one effect takes.
pub enum Disposer {
    /// Withdraw the service `name` from the scope of `ctx`.
    Withdraw { ctx: Context, name: String },
    /// Remove a listener.
    Unhook { event: String, callback: u64 },
    /// Run the cleanup routine with this number.
    Task(u64),
}

/// A [`Disposer`] as it is spoken of.
pub enum DisposerView {
    Withdraw { ctx: Context, name: Seq<char> },
    Unhook { event: Seq<char>, callback: u64 },
    Task(u64),
}

impl View for Disposer {
    type V = DisposerView;

    open spec fn view(&self) -> DisposerView {
        match *self {
            Disposer::Withdraw { ctx, name } => DisposerView::Withdraw { ctx, name: name@ },
            Disposer::Unhook { event, callback } => DisposerView::Unhook {
                event: event@,
                callback,
            },
            Disposer::Task(task) => DisposerView::Task(task),
        }
    }
}

/// What a list of disposers undoes.
pub open spec fn disposers_view(list: Seq<Disposer>) -> Seq<DisposerView> {
    list.map_values(|d: Disposer| d@)
}

/// One live effect of a fiber.
pub struct Effect {
    pub id: u64,
    pub label: String,
    pub disposer: Disposer,
}

/// An [`Effect`] as it is spoken of.
pub struct EffectView {
    pub id: u64,
    pub label: Seq<char>,
    pub disposer: DisposerView,
}

impl View for Effect {
    type V = EffectView;

    open spec fn view(&self) -> EffectView {
        EffectView { id: self.id, label: self.label@, disposer: self.disposer@ }
    }
}

/// A slot of the effect list; disposed effects leave an empty slot.
pub open spec fn slot_view(slot: Option<Effect>) -> Option<EffectView> {
    match slot {
        Some(effect) => Some(effect@),
        None => None,
    }
}

/// What a fiber is converging to.
pub struct DriveState {
    pub desired: String,
    /// The desired epoch changed since the driver last looked.
    pub dirty: bool,
    /// Set by a restart and by the loss of a required service: guarantees that
    /// what is loaded or being loaded is unloaded first, even when the desired
    /// epoch equals the loaded one.
    pub force: bool,
    /// A driver is running.
    pub running: bool,
}

/// Runtime instance of one plugin application.
pub struct Fiber {
    /// Unique id within the root; 0 for the root fiber, `None` once disposed.
    pub uid: Option<u64>,
    /// Key of the plugin this fiber runs; the root fiber runs none.
    pub runtime: Option<u64>,
    pub name: String,
    pub inject: Vec<Injection>,
    /// The context this fiber's plugin runs in.
    pub ctx: Context,
    pub raw_config: Json,
    pub config: Json,
    pub error: Option<Error>,
    /// Snapshots of required-service implementations.
    pub store: NameMap<ProviderSnapshot>,
    pub loaded: String,
    pub disposables: Vec<Option<Effect>>,
    pub next_effect_id: u64,
    pub driver: DriveState,
    /// Mirror of the derived state, republished at every transition.
    pub state_cache: u8,
}

/// A [`Fiber`] as it is spoken of.
#[verifier::ext_equal]
pub struct FiberView {
    pub uid: Option<u64>,
    pub runtime: Option<u64>,
    pub name: Seq<char>,
    pub inject: Seq<Seq<char>>,
    pub ctx: Context,
    pub raw_config: Json,
    pub config: Json,
    pub error: Option<ErrorView>,
    pub store: Map<Seq<char>, ProviderSnapshot>,
    pub loaded: Seq<char>,
    pub effects: Seq<Option<EffectView>>,
    pub next_effect_id: u64,
    pub desired: Seq<char>,
    pub dirty: bool,
    pub force: bool,
    pub running: bool,
    pub state: FiberState,
}

impl View for Fiber {
    type V = FiberView;

    open spec fn view(&self) -> FiberView {
        FiberView {
            uid: self.uid,
            runtime: self.runtime,
            name: self.name@,
            inject: service_names(self.inject@),
            ctx: self.ctx,
            raw_config: self.raw_config,
            config: self.config,
            error: match self.error {
                Some(e) => Some(e.deep()),
                None => None,
            },
            store: self.store@,
            loaded: self.loaded@,
            effects: self.disposables@.map_values(|slot: Option<Effect>| slot_view(slot)),
            next_effect_id: self.next_effect_id,
            desired: self.driver.desired@,
            dirty: self.driver.dirty,
            force: self.driver.force,
            running: self.driver.running,
            state: mirrored_state(self.state_cache),
        }
    }
}

// ---------------------------------------------------------------------------
// Epochs
// ---------------------------------------------------------------------------

/// The epoch of a fiber that must not run: some required service is missing.
pub open spec fn inactive() -> Seq<char> {
    Seq::empty()
}

/// The epoch of a fiber whose required services come from these providers:
/// a colon, and for each provider a colon and its uid.
pub open spec fn epoch_text(providers: Seq<u64>) -> Seq<char>
    decreases providers.len(),
{
    if providers.len() == 0 {
        seq![':']
    } else {
        epoch_text(providers.drop_last()).push(':') + numeral(providers.last() as nat)
    }
}

/// Every required service has a snapshot.
pub open spec fn satisfied(
    inject: Seq<Seq<char>>,
    store: Map<Seq<char>, ProviderSnapshot>,
) -> bool {
    forall|i: int| 0 <= i < inject.len() ==> store.contains_key(#[trigger] inject[i])
}

/// The providers of the required services, in declaration order.
pub open spec fn providers(
    inject: Seq<Seq<char>>,
    store: Map<Seq<char>, ProviderSnapshot>,
) -> Seq<u64> {
    inject.map_values(|name: Seq<char>| store[name].provider_uid)
}

/// The epoch that these snapshots call for.
pub open spec fn epoch_of(
    inject: Seq<Seq<char>>,
    store: Map<Seq<char>, ProviderSnapshot>,
) -> Seq<char> {
    if satisfied(inject, store) {
        epoch_text(providers(inject, store))
    } else {
        inactive()
    }
}

proof fn lemma_epoch_nonempty(a: Seq<u64>)
    ensures
        epoch_text(a).len() >= 1,
        a.len() > 0 ==> epoch_text(a).len() >= 3,
    decreases a.len(),
{
    if a.len() > 0 {
        lemma_epoch_nonempty(a.drop_last());
        lemma_numeral_is_digits(a.last() as nat);
    }
}

/// An epoch tells its providers: two epochs are the same text only if the
/// same providers stand behind them, in the same order.
pub proof fn law_epoch_identifies_providers(a: Seq<u64>, b: Seq<u64>)
    requires
        epoch_text(a) == epoch_text(b),
    ensures
        a == b,
    decreases a.len(),
{
    lemma_epoch_nonempty(a);
    lemma_epoch_nonempty(b);
    if a.len() == 0 || b.len() == 0 {
        assert(a.len() == 0 && b.len() == 0);
        assert(a =~= b);
    } else {
        let x = numeral(a.last() as nat);
        let y = numeral(b.last() as nat);
        lemma_numeral_is_digits(a.last() as nat);
        lemma_numeral_is_digits(b.last() as nat);
        lemma_last_separator(epoch_text(a.drop_last()), x, epoch_text(b.drop_last()), y, ':');
        lemma_numeral_injective(a.last() as nat, b.last() as nat);
        law_epoch_identifies_providers(a.drop_last(), b.drop_last());
        assert(a =~= a.drop_last().push(a.last()));
        assert(b =~= b.drop_last().push(b.last()));
    }
}

/// A fiber may run exactly if every required service has a snapshot.
pub proof fn law_epoch_active_iff_satisfied(
    inject: Seq<Seq<char>>,
    store: Map<Seq<char>, ProviderSnapshot>,
)
    ensures
        epoch_of(inject, store) != inactive() <==> satisfied(inject, store),
{
    if satisfied(inject, store) {
        lemma_epoch_nonempty(providers(inject, store));
    }
}

// ---------------------------------------------------------------------------
// Effects
// ---------------------------------------------------------------------------

/// The live effects, in registration order.
pub open spec fn live(effects: Seq<Option<EffectView>>) -> Seq<EffectView>
    decreases effects.len(),
{
    if effects.len() == 0 {
        Seq::empty()
    } else {
        match effects.last() {
            Some(effect) => live(effects.drop_last()).push(effect),
            None => live(effects.drop_last()),
        }
    }
}

/// The disposers of the live effects, newest effect first.
pub open spec fn disposal_order(effects: Seq<Option<EffectView>>) -> Seq<DisposerView>
    decreases effects.len(),
{
    if effects.len() == 0 {
        Seq::empty()
    } else {
        match effects.last() {
            Some(effect) => seq![effect.disposer] + disposal_order(effects.drop_last()),
            None => disposal_order(effects.drop_last()),
        }
    }
}

/// Slot `i` holds the live effect `id`.
pub open spec fn effect_at(effects: Seq<Option<EffectView>>, i: int, id: u64) -> bool {
    0 <= i < effects.len() && (effects[i] matches Some(effect) && effect.id == id)
}

/// The effect `id` is live.
pub open spec fn has_effect(effects: Seq<Option<EffectView>>, id: u64) -> bool {
    exists|i: int| effect_at(effects, i, id)
}

/// The effect list once the effect `id` has been taken out.
pub open spec fn without_effect(effects: Seq<Option<EffectView>>, id: u64) -> Seq<
    Option<EffectView>,
> {
    effects.map_values(
        |slot: Option<EffectView>|
            if slot matches Some(effect) && effect.id == id {
                None
            } else {
                slot
            },
    )
}

/// `id` is the smallest that no live effect has.
pub open spec fn smallest_free(effects: Seq<Option<EffectView>>, id: u64) -> bool {
    !has_effect(effects, id) && forall|k: u64| k < id ==> #[trigger] has_effect(effects, k)
}

/// The id that is handed out after `id`: the next number; once the numbers are
/// used up, or where the next one is taken, the smallest that is free.
pub open spec fn id_after(effects: Seq<Option<EffectView>>, id: u64) -> u64 {
    if id < u64::MAX && !has_effect(effects, (id + 1) as u64) {
        (id + 1) as u64
    } else {
        choose|k: u64| smallest_free(effects, k)
    }
}

/// As many ids as are taken, so many effects there are.
pub proof fn lemma_ids_taken(effects: Seq<Option<EffectView>>, n: int)
    requires
        0 <= n <= u64::MAX + 1,
        forall|k: u64| k < n ==> #[trigger] has_effect(effects, k),
    ensures
        n <= effects.len(),
{
    let ids = effects.map_values(
        |slot: Option<EffectView>|
            match slot {
                Some(effect) => effect.id as int,
                None => -1int,
            },
    );
    let taken = set_int_range(0, n);
    lemma_int_range(0, n);
    ids.lemma_cardinality_of_set();
    seq_to_set_is_finite(ids);
    assert forall|k: int| #[trigger] taken.contains(k) implies ids.to_set().contains(k) by {
        let id = k as u64;
        assert(has_effect(effects, id));
        let i = choose|i: int| effect_at(effects, i, id);
        assert(ids[i] == k);
    }
    lemma_len_subset(taken, ids.to_set());
}

/// No two live effects have one id, and the next one to be handed out is free.
pub open spec fn effects_wf(effects: Seq<Option<EffectView>>, next: u64) -> bool {
    &&& !has_effect(effects, next)
    &&& forall|i: int, j: int, id: u64|
        #![trigger effect_at(effects, i, id), effect_at(effects, j, id)]
        effect_at(effects, i, id) && effect_at(effects, j, id) ==> i == j
}

/// Effects are disposed of in the reverse order of their registration, each
/// of them once.
pub proof fn law_effects_dispose_lifo(effects: Seq<Option<EffectView>>)
    ensures
        disposal_order(effects).len() == live(effects).len(),
        forall|i: int|
            0 <= i < live(effects).len() ==> #[trigger] disposal_order(effects)[i] == live(
                effects,
            )[live(effects).len() - 1 - i].disposer,
    decreases effects.len(),
{
    if effects.len() > 0 {
        law_effects_dispose_lifo(effects.drop_last());
    }
}

/// Disposing of an effect is single-shot: afterwards it is not live, and the
/// others are as they were.
pub proof fn law_effect_disposed_once(effects: Seq<Option<EffectView>>, id: u64, other: u64)
    ensures
        !has_effect(without_effect(effects, id), id),
        other != id ==> has_effect(without_effect(effects, id), other) == has_effect(
            effects,
            other,
        ),
{
    let left = without_effect(effects, id);
    assert forall|i: int| !#[trigger] effect_at(left, i, id) by {
        if 0 <= i < left.len() {
            assert(left[i] == if effects[i] matches Some(e) && e.id == id {
                None
            } else {
                effects[i]
            });
        }
    }
    if other != id {
        if has_effect(left, other) {
            let i = choose|i: int| effect_at(left, i, other);
            assert(effect_at(effects, i, other));
        }
        if has_effect(effects, other) {
            let i = choose|i: int| effect_at(effects, i, other);
            assert(effect_at(left, i, other));
        }
    }
}

/// The live effects are those that have not been taken out, in order: those of
/// two stretches of slots are those of the first and then those of the
/// second; a slot that holds an effect adds it, an empty one nothing.
pub proof fn law_live_effects_are_the_held_ones(
    first: Seq<Option<EffectView>>,
    second: Seq<Option<EffectView>>,
    effect: EffectView,
)
    ensures
        live(first + second) == live(first) + live(second),
        live(Seq::empty()).len() == 0,
        live(seq![Some(effect)]) == seq![effect],
        live(seq![None]).len() == 0,
{
    lemma_live_joined(first, second);
    reveal_with_fuel(live, 2);
    assert(seq![Some(effect)].drop_last() =~= Seq::empty());
    assert(seq![None::<EffectView>].drop_last() =~= Seq::empty());
    assert(live(seq![Some(effect)]) =~= seq![effect]);
}

proof fn lemma_live_joined(first: Seq<Option<EffectView>>, second: Seq<Option<EffectView>>)
    ensures
        live(first + second) == live(first) + live(second),
    decreases second.len(),
{
    if second.len() == 0 {
        assert(first + second =~= first);
        assert(live(first) + live(second) =~= live(first));
    } else {
        assert((first + second).drop_last() =~= first + second.drop_last());
        lemma_live_joined(first, second.drop_last());
        assert(live(first + second) =~= live(first) + live(second));
    }
}

/// Taking out an effect empties every slot that holds it and no other; it is
/// live exactly as long as some slot holds it.
pub proof fn law_taking_out_empties_its_slot(effects: Seq<Option<EffectView>>, id: u64, i: int)
    requires
        0 <= i < effects.len(),
    ensures
        without_effect(effects, id).len() == effects.len(),
        effects[i] matches Some(effect) && effect.id == id ==> without_effect(effects, id)[i]
            is None && has_effect(effects, id),
        !(effects[i] matches Some(effect) && effect.id == id) ==> without_effect(effects, id)[i]
            == effects[i],
        has_effect(effects, id) <==> exists|j: int|
            0 <= j < effects.len() && (#[trigger] effects[j]) is Some && effects[j].unwrap().id
                == id,
{
    if effects[i] matches Some(effect) && effect.id == id {
        assert(effect_at(effects, i, id));
    }
    if has_effect(effects, id) {
        let j = choose|j: int| effect_at(effects, j, id);
        assert(effects[j] is Some && effects[j].unwrap().id == id);
    }
    if exists|j: int|
        0 <= j < effects.len() && (#[trigger] effects[j]) is Some && effects[j].unwrap().id == id {
        let j = choose|j: int|
            0 <= j < effects.len() && (#[trigger] effects[j]) is Some && effects[j].unwrap().id
                == id;
        assert(effect_at(effects, j, id));
    }
}

/// The epoch of a fiber that requires nothing is a colon; each further provider
/// adds a colon and its uid in decimal.
pub proof fn law_epoch_spells_out_its_providers(providers: Seq<u64>, uid: u64)
    ensures
        epoch_text(Seq::empty()) == seq![':'],
        epoch_text(providers.push(uid)) == epoch_text(providers) + seq![':'] + numeral(uid as nat),
{
    assert(providers.push(uid).drop_last() =~= providers);
    assert(epoch_text(providers).push(':') =~= epoch_text(providers) + seq![':']);
}

/// The id after `id` is the next number where no live effect has it; where one
/// has, or the numbers are used up, it is the smallest that none has. Either
/// way no live effect has it.
pub proof fn law_next_id_is_free(effects: Seq<Option<EffectView>>, id: u64, k: u64)
    requires
        forall|i: int|
            0 <= i < effects.len() ==> ((#[trigger] effects[i]) matches Some(effect) ==> effect.id
                != k),
    ensures
        id < u64::MAX && k == id + 1 ==> id_after(effects, id) == k,
        (id == u64::MAX || has_effect(effects, (id + 1) as u64)) && (forall|smaller: u64|
            smaller < k ==> #[trigger] has_effect(effects, smaller)) ==> id_after(effects, id) == k,
{
    assert(!has_effect(effects, k)) by {
        if has_effect(effects, k) {
            let i = choose|i: int| effect_at(effects, i, k);
            assert(effects[i] is Some);
        }
    }
    if (id == u64::MAX || has_effect(effects, (id + 1) as u64)) && forall|smaller: u64|
        smaller < k ==> #[trigger] has_effect(effects, smaller) {
        assert(smallest_free(effects, k));
        let found = choose|found: u64| smallest_free(effects, found);
        assert(smallest_free(effects, found));
        if found < k {
            assert(has_effect(effects, found));
        } else if k < found {
            assert(has_effect(effects, k));
        }
    }
}

} // verus!
