//! Contexts and the scope chain they carry.
//!
//! A [`Context`] is a cheap handle: it names its root, carries a *scope
//! chain* for isolation and interception, and names the fiber that owns it.
//! Deriving a child context never changes the parent.

use std::sync::Arc;

use vstd::prelude::*;

use crate::json::{merge_layers, merged_members, Json};

verus! {

/// Isolation label of the default (root) scope.
pub const DEFAULT_LABEL: u64 = 0;

/// What one scope node changes for the contexts below it.
pub enum ScopeRule {
    /// Nothing: the root node.
    Base,
    /// `name` resolves against the isolation label `label`.
    Isolate { name: String, label: u64 },
    /// One more intercept-config layer for `name`.
    Intercept { name: String, config: Json },
}

/// Immutable scope node forming a persistent linked list to the root.
pub struct ScopeNode {
    /// Distinguishes the nodes of one root.
    pub id: u64,
    pub parent: Option<Arc<ScopeNode>>,
    pub rule: ScopeRule,
}

/// The isolation label under which `name` resolves from `node`: that of the
/// nearest override on the way to the root, else the default.
pub open spec fn scope_label(node: ScopeNode, name: Seq<char>) -> u64
    decreases node,
{
    match node.rule {
        ScopeRule::Isolate { name: n, label } if n@ == name => label,
        _ => match node.parent {
            Some(parent) => scope_label(*parent, name),
            None => DEFAULT_LABEL,
        },
    }
}

/// The intercept-config layers for `name` that are visible from `node`,
/// outermost first.
pub open spec fn scope_layers(node: ScopeNode, name: Seq<char>) -> Seq<Json>
    decreases node,
{
    let outer = match node.parent {
        Some(parent) => scope_layers(*parent, name),
        None => Seq::empty(),
    };
    match node.rule {
        ScopeRule::Intercept { name: n, config } if n@ == name => outer.push(config),
        _ => outer,
    }
}

/// Dependency container handle; clone freely.
pub struct Context {
    /// The root this context belongs to.
    pub root: u64,
    pub scope: Arc<ScopeNode>,
    /// The owning fiber, by its position among the fibers of the root.
    pub fiber: Option<usize>,
}

impl Clone for Context {
    fn clone(&self) -> (res: Context)
        ensures
            res == *self,
    {
        Context { root: self.root, scope: self.scope.clone(), fiber: self.fiber }
    }
}

impl ScopeNode {
    /// The node every scope chain of a root ends in.
    pub fn root() -> (res: Arc<ScopeNode>)
        ensures
            *res == (ScopeNode { id: 0, parent: None, rule: ScopeRule::Base }),
    {
        Arc::new(ScopeNode { id: 0, parent: None, rule: ScopeRule::Base })
    }

    /// Resolve `name` to its isolation label.
    pub fn label(&self, name: &str) -> (res: u64)
        ensures
            res == scope_label(*self, name@),
    {
        let key: String = name.to_owned();
        let mut cursor: &ScopeNode = self;
        loop
            invariant
                key@ == name@,
                scope_label(*self, name@) == scope_label(*cursor, name@),
            decreases *cursor,
        {
            if let ScopeRule::Isolate { name: n, label } = &cursor.rule {
                if *n == key {
                    return *label;
                }
            }
            match &cursor.parent {
                Some(parent) => {
                    cursor = &**parent;
                },
                None => {
                    return DEFAULT_LABEL;
                },
            }
        }
    }

    /// Collect the intercept layers for `name`, outermost first.
    pub fn layers(&self, name: &str) -> (res: Vec<Json>)
        ensures
            res@ == scope_layers(*self, name@),
    {
        let key: String = name.to_owned();
        let mut collected: Vec<Json> = Vec::new();
        let mut cursor: &ScopeNode = self;
        assert(scope_layers(*self, name@) =~= scope_layers(*cursor, name@) + collected@);
        loop
            invariant
                key@ == name@,
                scope_layers(*self, name@) == scope_layers(*cursor, name@) + collected@,
            decreases *cursor,
        {
            let ghost inner = collected@;
            if let ScopeRule::Intercept { name: n, config } = &cursor.rule {
                if *n == key {
                    collected.insert(0, config.clone());
                    assert(collected@ =~= seq![*config] + inner);
                }
            }
            match &cursor.parent {
                Some(parent) => {
                    assert(scope_layers(*cursor, name@) + inner =~= scope_layers(**parent, name@)
                        + collected@);
                    cursor = &**parent;
                },
                None => {
                    assert(scope_layers(*cursor, name@) + inner =~= collected@);
                    return collected;
                },
            }
        }
    }
}

/// Merge the intercept configs for `name` along the scope chain, outermost
/// first: inner layers win on conflicting keys.
pub fn merged_intercept(scope: &ScopeNode, name: &str) -> (res: Json)
    ensures
        res is Object,
        res.members() == merged_members(scope_layers(*scope, name@)),
{
    merge_layers(&scope.layers(name))
}

impl Context {
    /// Derive a child context bound to the same fiber and scope.
    pub fn extend(&self) -> (res: Context)
        ensures
            res == *self,
    {
        self.clone()
    }

    /// Merged intercept config visible from this context.
    pub fn service_config(&self, name: &str) -> (res: Json)
        ensures
            res is Object,
            res.members() == merged_members(scope_layers(*self.scope, name@)),
    {
        merged_intercept(&self.scope, name)
    }

    /// The isolation label of `name` in this context.
    pub open spec fn label_of(self, name: Seq<char>) -> u64 {
        scope_label(*self.scope, name)
    }

    pub fn effective_label(&self, name: &str) -> (res: u64)
        ensures
            res == self.label_of(name@),
    {
        self.scope.label(name)
    }

    /// Two handles refer to the same isolation scope.
    pub open spec fn same_scope(self, other: Context) -> bool {
        self.scope.id == other.scope.id && self.root == other.root
    }

    /// Scope identity.
    pub fn is(&self, other: &Context) -> (res: bool)
        ensures
            res == self.same_scope(*other),
    {
        self.scope.id == other.scope.id && self.root == other.root
    }
}

/// A scope node changes one name and passes on the rest: a name resolves to the
/// label of the nearest node that isolates it, else to the default label; the
/// layers of a name are those of the nodes that intercept it, from the root
/// inwards.
pub proof fn law_scope_chain_is_walked_to_the_root(node: ScopeNode, name: Seq<char>)
    ensures
        ({
            let outer_label = match node.parent {
                Some(parent) => scope_label(*parent, name),
                None => 0u64,
            };
            let outer_layers = match node.parent {
                Some(parent) => scope_layers(*parent, name),
                None => Seq::empty(),
            };
            match node.rule {
                ScopeRule::Base => scope_label(node, name) == outer_label && scope_layers(
                    node,
                    name,
                ) == outer_layers,
                ScopeRule::Isolate { name: n, label } => {
                    &&& n@ == name ==> scope_label(node, name) == label
                    &&& n@ != name ==> scope_label(node, name) == outer_label
                    &&& scope_layers(node, name) == outer_layers
                },
                ScopeRule::Intercept { name: n, config } => {
                    &&& scope_label(node, name) == outer_label
                    &&& n@ == name ==> scope_layers(node, name) == outer_layers.push(config)
                    &&& n@ != name ==> scope_layers(node, name) == outer_layers
                },
            }
        }),
{
}

/// A context resolves a name by its own scope chain and by nothing else.
pub proof fn law_context_resolves_by_its_scope(ctx: Context, other: Context, name: Seq<char>)
    ensures
        ctx.label_of(name) == scope_label(*ctx.scope, name),
        *ctx.scope == *other.scope ==> ctx.label_of(name) == other.label_of(name),
        ctx.same_scope(other) <==> ctx.root == other.root && ctx.scope.id == other.scope.id,
{
}

} // verus!
