//! Deriving contexts: isolation and interception.

use std::sync::Arc;

use vstd::prelude::*;

use crate::context::{scope_label, scope_layers, Context, ScopeNode, ScopeRule};
use crate::json::{merged_members, Json};
use crate::plugin::{injections_view, Injection, InjectionView};
use crate::root::{RootState, RootView};

verus! {

impl Context {
    /// `self` is a child of `parent` whose scope has the one rule `rule`, on
    /// a scope node of its own.
    pub open spec fn derives(self, parent: Context, id: u64, rule: ScopeRule) -> bool {
        &&& self.root == parent.root
        &&& self.fiber == parent.fiber
        &&& *self.scope == (ScopeNode { id, parent: Some(parent.scope), rule })
    }

    fn derive(&self, root: &mut RootState, rule: ScopeRule) -> (res: Context)
        requires
            old(root).wf(),
            old(root).has_context(*self),
            old(root).scope_seed < u64::MAX,
        ensures
            final(root).wf(),
            final(root).has_context(res),
            !res.same_scope(*self),
            final(root)@ == (RootView {
                scope_seed: (old(root).scope_seed + 1) as u64,
                ..old(root)@
            }),
            res.derives(*self, old(root).scope_seed, rule),
            res.root == self.root,
            res.fiber == self.fiber,
            *res.scope == (ScopeNode {
                id: old(root).scope_seed,
                parent: Some(self.scope),
                rule,
            }),
    {
        let ghost before = root@;
        let id: u64 = root.scope_seed;
        root.scope_seed = id + 1;
        assert(root@ =~= (RootView { scope_seed: (before.scope_seed + 1) as u64, ..before }));
        Context {
            root: self.root,
            scope: Arc::new(ScopeNode { id, parent: Some(self.scope.clone()), rule }),
            fiber: self.fiber,
        }
    }

    /// Create a child context where `name` resolves against an independent
    /// scope. Deriving with the same `label` twice joins both scopes.
    pub fn isolate_with_label(&self, root: &mut RootState, name: &str, label: u64) -> (res: Context)
        requires
            old(root).wf(),
            old(root).has_context(*self),
            old(root).scope_seed < u64::MAX,
        ensures
            final(root).wf(),
            final(root).has_context(res),
            !res.same_scope(*self),
            final(root)@ == (RootView {
                scope_seed: (old(root).scope_seed + 1) as u64,
                ..old(root)@
            }),
            res.scope.rule matches ScopeRule::Isolate { name: n, label: l } && n@ == name@ && l
                == label,
            res.derives(*self, old(root).scope_seed, res.scope.rule),
            res.root == self.root,
            res.fiber == self.fiber,
            res.scope.id == old(root).scope_seed,
            res.scope.parent == Some(self.scope),
    {
        self.derive(root, ScopeRule::Isolate { name: name.to_owned(), label })
    }

    /// [`Context::isolate_with_label`] with a freshly allocated label.
    pub fn isolate(&self, root: &mut RootState, name: &str) -> (res: Context)
        requires
            old(root).wf(),
            old(root).has_context(*self),
            old(root).scope_seed < u64::MAX,
            old(root).label_seed < u64::MAX,
        ensures
            final(root).wf(),
            final(root).has_context(res),
            !res.same_scope(*self),
            final(root)@ == (RootView {
                scope_seed: (old(root).scope_seed + 1) as u64,
                label_seed: (old(root).label_seed + 1) as u64,
                ..old(root)@
            }),
            res.scope.rule matches ScopeRule::Isolate { name: n, label: l } && n@ == name@ && l
                == old(root).label_seed + 1,
            res.derives(*self, old(root).scope_seed, res.scope.rule),
            res.root == self.root,
            res.fiber == self.fiber,
            res.scope.id == old(root).scope_seed,
            res.scope.parent == Some(self.scope),
    {
        let label: u64 = root.fresh_label();
        self.isolate_with_label(root, name, label)
    }

    /// Add an intercept-config layer for `name`; layers merge outermost first.
    pub fn intercept(&self, root: &mut RootState, name: &str, config: Json) -> (res: Context)
        requires
            old(root).wf(),
            old(root).has_context(*self),
            old(root).scope_seed < u64::MAX,
        ensures
            final(root).wf(),
            final(root).has_context(res),
            !res.same_scope(*self),
            final(root)@ == (RootView {
                scope_seed: (old(root).scope_seed + 1) as u64,
                ..old(root)@
            }),
            res.scope.rule matches ScopeRule::Intercept { name: n, config: c } && n@ == name@ && c
                == config,
            res.derives(*self, old(root).scope_seed, res.scope.rule),
            res.root == self.root,
            res.fiber == self.fiber,
            res.scope.id == old(root).scope_seed,
            res.scope.parent == Some(self.scope),
    {
        self.derive(root, ScopeRule::Intercept { name: name.to_owned(), config })
    }
}

/// The intercept layers for `name` that these declarations bring along, in
/// order.
pub open spec fn declared_layers(inject: Seq<InjectionView>, name: Seq<char>) -> Seq<Json>
    decreases inject.len(),
{
    if inject.len() == 0 {
        Seq::empty()
    } else {
        let earlier = declared_layers(inject.drop_last(), name);
        match inject.last().config {
            Some(config) if inject.last().service == name => earlier.push(config),
            _ => earlier,
        }
    }
}

/// How many of these declarations bring a layer along.
pub open spec fn layer_count(inject: Seq<InjectionView>) -> nat
    decreases inject.len(),
{
    if inject.len() == 0 {
        0
    } else if inject.last().config is Some {
        layer_count(inject.drop_last()) + 1
    } else {
        layer_count(inject.drop_last())
    }
}

impl Context {
    /// `self` sees what `parent` sees, with the declared layers on top.
    pub open spec fn dresses(self, parent: Context, inject: Seq<InjectionView>) -> bool {
        &&& self.root == parent.root
        &&& forall|name: Seq<char>| #[trigger] self.label_of(name) == parent.label_of(name)
        &&& forall|name: Seq<char>| #[trigger]
            scope_layers(*self.scope, name) == scope_layers(*parent.scope, name) + declared_layers(
                inject,
                name,
            )
        &&& layer_count(inject) == 0 ==> self.scope == parent.scope
    }

    /// Derive the context for a plugin with these declarations: each config
    /// among them is a layer for the service that it is declared for.
    pub fn dress(&self, root: &mut RootState, inject: &Vec<Injection>) -> (res: Context)
        requires
            old(root).wf(),
            old(root).has_context(*self),
            old(root).scope_seed + inject@.len() <= u64::MAX,
        ensures
            final(root).wf(),
            final(root).has_context(res),
            final(root)@ == (RootView {
                scope_seed: (old(root).scope_seed + layer_count(injections_view(inject@))) as u64,
                ..old(root)@
            }),
            res.fiber == self.fiber,
            res.dresses(*self, injections_view(inject@)),
    {
        let ghost all = injections_view(inject@);
        let ghost before = root@;
        let mut bound: Context = self.clone();
        let mut i: usize = 0;
        proof {
            assert(all.take(0) =~= Seq::empty());
            assert forall|name: Seq<char>| #[trigger] scope_layers(*bound.scope, name)
                == scope_layers(*self.scope, name) + declared_layers(all.take(0), name) by {
                assert(scope_layers(*self.scope, name) + declared_layers(all.take(0), name)
                    =~= scope_layers(*self.scope, name));
            }
            assert(root@ =~= (RootView {
                scope_seed: (before.scope_seed + layer_count(all.take(0))) as u64,
                ..before
            }));
        }
        while i < inject.len()
            invariant
                i <= inject@.len(),
                all == injections_view(inject@),
                before.scope_seed + inject@.len() <= u64::MAX,
                layer_count(all.take(i as int)) <= i,
                root.wf(),
                root.has_context(bound),
                root@ == (RootView {
                    scope_seed: (before.scope_seed + layer_count(all.take(i as int))) as u64,
                    ..before
                }),
                bound.fiber == self.fiber,
                bound.dresses(*self, all.take(i as int)),
            decreases inject@.len() - i,
        {
            let ghost inner = bound;
            proof {
                assert(all.take(i + 1).drop_last() =~= all.take(i as int));
                assert(all.take(i + 1).last() == inject@[i as int]@);
            }
            if let Some(config) = &inject[i].config {
                bound =
                bound.intercept(root, inject[i].service.as_str(), config.clone());
                proof {
                    assert forall|name: Seq<char>| #[trigger] bound.label_of(name)
                        == self.label_of(name) by {
                        law_intercept_adds_one_layer(inner, bound, name);
                        assert(inner.label_of(name) == self.label_of(name));
                    }
                    assert forall|name: Seq<char>| #[trigger] scope_layers(*bound.scope, name)
                        == scope_layers(*self.scope, name) + declared_layers(
                        all.take(i + 1),
                        name,
                    ) by {
                        law_intercept_adds_one_layer(inner, bound, name);
                        assert(scope_layers(*inner.scope, name) == scope_layers(*self.scope, name)
                            + declared_layers(all.take(i as int), name));
                        assert(scope_layers(*bound.scope, name) =~= scope_layers(*self.scope, name)
                            + declared_layers(all.take(i + 1), name));
                    }
                }
            }
            i = i + 1;
        }
        assert(all.take(all.len() as int) =~= all);
        bound
    }
}

impl RootState {
    /// Allocate an isolation label that no scope has got this way before.
    pub fn fresh_label(&mut self) -> (res: u64)
        requires
            old(self).wf(),
            old(self).label_seed < u64::MAX,
        ensures
            final(self).wf(),
            res == old(self).label_seed + 1,
            final(self)@ == (RootView { label_seed: res, ..old(self)@ }),
    {
        let ghost before = self@;
        self.label_seed = self.label_seed + 1;
        assert(self@ =~= (RootView { label_seed: self.label_seed, ..before }));
        self.label_seed
    }
}

/// Isolating one name leaves every other name, and every config layer, as
/// the parent has them; the name itself resolves to the given label.
pub proof fn law_isolate_rewrites_one_name(parent: Context, child: Context, other: Seq<char>)
    requires
        child.scope.rule is Isolate,
        child.derives(parent, child.scope.id, child.scope.rule),
    ensures
        child.label_of(child.scope.rule->Isolate_name@) == child.scope.rule->Isolate_label,
        other != child.scope.rule->Isolate_name@ ==> child.label_of(other) == parent.label_of(
            other,
        ),
        scope_layers(*child.scope, other) == scope_layers(*parent.scope, other),
{
    reveal_with_fuel(scope_label, 2);
    reveal_with_fuel(scope_layers, 2);
}

/// Intercepting one name adds its layer innermost, leaves the layers of every
/// other name, and moves no name to another label.
pub proof fn law_intercept_adds_one_layer(parent: Context, child: Context, other: Seq<char>)
    requires
        child.scope.rule is Intercept,
        child.derives(parent, child.scope.id, child.scope.rule),
    ensures
        scope_layers(*child.scope, child.scope.rule->Intercept_name@) == scope_layers(
            *parent.scope,
            child.scope.rule->Intercept_name@,
        ).push(child.scope.rule->config),
        other != child.scope.rule->Intercept_name@ ==> scope_layers(*child.scope, other)
            == scope_layers(*parent.scope, other),
        child.label_of(other) == parent.label_of(other),
{
    reveal_with_fuel(scope_label, 2);
    reveal_with_fuel(scope_layers, 2);
}

/// Layers merge outermost first: on a conflicting key the inner layer wins,
/// and every key that it does not have persists from the outer layers.
pub proof fn law_inner_layer_wins(parent: Context, child: Context, key: Seq<char>)
    requires
        child.scope.rule is Intercept,
        child.derives(parent, child.scope.id, child.scope.rule),
    ensures
        ({
            let name = child.scope.rule->Intercept_name@;
            let outer = merged_members(scope_layers(*parent.scope, name));
            let inner = child.scope.rule->config.members();
            let merged = merged_members(scope_layers(*child.scope, name));
            &&& merged.contains_key(key) == (outer.contains_key(key) || inner.contains_key(key))
            &&& inner.contains_key(key) ==> merged[key] == inner[key]
            &&& outer.contains_key(key) && !inner.contains_key(key) ==> merged[key] == outer[key]
        }),
{
    law_intercept_adds_one_layer(parent, child, key);
    assert(scope_layers(*child.scope, child.scope.rule->Intercept_name@).drop_last()
        =~= scope_layers(*parent.scope, child.scope.rule->Intercept_name@));
}

/// Deriving with one label twice joins both scopes: the name resolves to the
/// same label in both.
pub proof fn law_same_label_joins(a: Context, b: Context, c: Context, d: Context)
    requires
        c.scope.rule is Isolate,
        d.scope.rule is Isolate,
        c.derives(a, c.scope.id, c.scope.rule),
        d.derives(b, d.scope.id, d.scope.rule),
        c.scope.rule->Isolate_name@ == d.scope.rule->Isolate_name@,
        c.scope.rule->Isolate_label == d.scope.rule->Isolate_label,
    ensures
        c.label_of(c.scope.rule->Isolate_name@) == d.label_of(c.scope.rule->Isolate_name@),
{
}

/// The layers that declarations bring along for a service are the configs that
/// are declared for it, in order: those of two lists are those of the first
/// and then those of the second; a declaration without a config, or for
/// another service, brings none. Each declaration with a config uses up one
/// scope node.
pub proof fn law_declarations_bring_their_configs(
    first: Seq<InjectionView>,
    second: Seq<InjectionView>,
    one: InjectionView,
    config: Json,
    name: Seq<char>,
)
    ensures
        declared_layers(first + second, name) == declared_layers(first, name) + declared_layers(
            second,
            name,
        ),
        declared_layers(Seq::empty(), name).len() == 0,
        one.service == name && one.config == Some(config) ==> declared_layers(seq![one], name)
            == seq![config],
        one.service != name || one.config is None ==> declared_layers(seq![one], name).len() == 0,
        layer_count(first + second) == layer_count(first) + layer_count(second),
        layer_count(Seq::empty()) == 0,
        one.config is Some ==> layer_count(seq![one]) == 1,
        one.config is None ==> layer_count(seq![one]) == 0,
{
    lemma_declared_joined(first, second, name);
    reveal_with_fuel(declared_layers, 2);
    reveal_with_fuel(layer_count, 2);
    assert(seq![one].drop_last() =~= Seq::<InjectionView>::empty());
    if one.service == name && one.config == Some(config) {
        assert(declared_layers(seq![one], name) =~= seq![config]);
    }
}

proof fn lemma_declared_joined(
    first: Seq<InjectionView>,
    second: Seq<InjectionView>,
    name: Seq<char>,
)
    ensures
        declared_layers(first + second, name) == declared_layers(first, name) + declared_layers(
            second,
            name,
        ),
        layer_count(first + second) == layer_count(first) + layer_count(second),
    decreases second.len(),
{
    if second.len() == 0 {
        assert(first + second =~= first);
        assert(declared_layers(first, name) + declared_layers(second, name) =~= declared_layers(
            first,
            name,
        ));
    } else {
        assert((first + second).drop_last() =~= first + second.drop_last());
        lemma_declared_joined(first, second.drop_last(), name);
        assert(declared_layers(first + second, name) =~= declared_layers(first, name)
            + declared_layers(second, name));
    }
}

/// A context that is dressed for a plugin resolves every name as its parent
/// does, and sees the layers of its parent with the declared ones inside.
pub proof fn law_dressing_adds_layers_only(
    child: Context,
    parent: Context,
    inject: Seq<InjectionView>,
    name: Seq<char>,
)
    requires
        child.dresses(parent, inject),
    ensures
        child.root == parent.root,
        child.label_of(name) == parent.label_of(name),
        scope_layers(*child.scope, name) == scope_layers(*parent.scope, name) + declared_layers(
            inject,
            name,
        ),
        (forall|i: int| 0 <= i < inject.len() ==> (#[trigger] inject[i]).config is None)
            ==> child.scope == parent.scope,
{
    if forall|i: int| 0 <= i < inject.len() ==> (#[trigger] inject[i]).config is None {
        lemma_no_layers(inject);
    }
}

proof fn lemma_no_layers(inject: Seq<InjectionView>)
    requires
        forall|i: int| 0 <= i < inject.len() ==> (#[trigger] inject[i]).config is None,
    ensures
        layer_count(inject) == 0,
    decreases inject.len(),
{
    if inject.len() > 0 {
        let rest = inject.drop_last();
        assert forall|i: int| 0 <= i < rest.len() implies (#[trigger] rest[i]).config is None by {
            assert(rest[i] == inject[i]);
        }
        assert(inject[inject.len() - 1].config is None);
        lemma_no_layers(rest);
    }
}

} // verus!
