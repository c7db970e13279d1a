//! JSON values as the kernel sees them.
//!
//! The kernel tells `null`, booleans and objects apart and merges objects key
//! by key; everything else is carried through untouched. Members of objects
//! are `serde_json` values, and objects are `serde_json` maps.

use vstd::prelude::*;

verus! {

/// A JSON value, opened as far as the kernel looks into it.
///
/// `Other` holds a number, a string or an array.
#[derive(Debug, PartialEq)]
pub enum Json {
    Null,
    Bool(bool),
    Object(serde_json::Map<String, serde_json::Value>),
    Other(serde_json::Value),
}

/// The `serde_json::Value` type, carried through without being looked into.
#[verifier::external_type_specification]
#[verifier::external_body]
pub struct ExJsonValue(serde_json::Value);

/// The `serde_json::Map` type; what it holds is [`object_entries`].
#[verifier::external_type_specification]
#[verifier::external_body]
#[verifier::reject_recursive_types(K)]
#[verifier::reject_recursive_types(V)]
pub struct ExJsonObject<K, V>(serde_json::Map<K, V>);

/// What [`Json`] makes of a `serde_json::Value`.
pub uninterp spec fn opened(value: serde_json::Value) -> Json;

/// Tells the variants of a `serde_json::Value` apart: `Value::Null`,
/// `Value::Bool` and `Value::Object` become the variants of the same names,
/// every other value is carried along as it is. What comes out depends on the
/// value alone.
#[verifier::external_body]
fn open_value(value: serde_json::Value) -> (res: Json)
    ensures
        res == opened(value),
        res matches Json::Other(inner) ==> inner == value,
{
    match value {
        serde_json::Value::Null => Json::Null,
        serde_json::Value::Bool(flag) => Json::Bool(flag),
        serde_json::Value::Object(object) => Json::Object(object),
        other => Json::Other(other),
    }
}

/// Builds the `serde_json::Value` that opens to the given value.
#[verifier::external_body]
fn close_value(json: Json) -> (res: serde_json::Value)
    ensures
        json.genuine() ==> opened(res) == json,
{
    match json {
        Json::Null => serde_json::Value::Null,
        Json::Bool(flag) => serde_json::Value::Bool(flag),
        Json::Object(object) => serde_json::Value::Object(object),
        Json::Other(value) => value,
    }
}

impl From<serde_json::Value> for Json {
    fn from(value: serde_json::Value) -> (res: Json) {
        open_value(value)
    }
}

impl vstd::std_specs::convert::FromSpecImpl<serde_json::Value> for Json {
    open spec fn obeys_from_spec() -> bool {
        true
    }

    open spec fn from_spec(value: serde_json::Value) -> Json {
        opened(value)
    }
}

/// The members of a JSON object, by key.
pub uninterp spec fn object_entries(
    object: serde_json::Map<String, serde_json::Value>,
) -> Map<Seq<char>, serde_json::Value>;

/// `serde_json::Value::clone`: a derived deep copy, equal to what it copies.
pub assume_specification[ <serde_json::Value as Clone>::clone ](
    value: &serde_json::Value,
) -> (res: serde_json::Value)
    ensures
        res == *value,
;

/// `serde_json::Map::clone`: a copy with the same members.
pub assume_specification[ <serde_json::Map<String, serde_json::Value> as Clone>::clone ](
    object: &serde_json::Map<String, serde_json::Value>,
) -> (res: serde_json::Map<String, serde_json::Value>)
    ensures
        res == *object,
;

/// `serde_json::Map::new`: an object without members.
#[verifier::external_body]
pub(crate) fn object_new() -> (res: serde_json::Map<String, serde_json::Value>)
    ensures
        object_entries(res) =~= Map::empty(),
{
    serde_json::Map::new()
}

/// `serde_json::Map::insert`: binds the key to the value, replacing what it
/// was bound to; no other member changes.
#[verifier::external_body]
pub(crate) fn object_insert(
    object: &mut serde_json::Map<String, serde_json::Value>,
    key: String,
    value: serde_json::Value,
)
    ensures
        object_entries(*final(object)) == object_entries(*old(object)).insert(key@, value),
{
    object.insert(key, value);
}

/// `serde_json::Map::into_iter`: hands out every member once, in the map's
/// own order; binding them one after another gives the object's members.
#[verifier::external_body]
fn object_into_entries(object: serde_json::Map<String, serde_json::Value>) -> (res: Vec<
    (String, serde_json::Value),
>)
    ensures
        bind_all(res@) == object_entries(object),
{
    object.into_iter().collect()
}

/// The map that binding `entries` one after another gives.
pub open spec fn bind_all(entries: Seq<(String, serde_json::Value)>) -> Map<
    Seq<char>,
    serde_json::Value,
>
    decreases entries.len(),
{
    if entries.len() == 0 {
        Map::empty()
    } else {
        bind_all(entries.drop_last()).insert(entries.last().0@, entries.last().1)
    }
}

impl Clone for Json {
    fn clone(&self) -> (res: Json)
        ensures
            res == *self,
    {
        match self {
            Json::Null => Json::Null,
            Json::Bool(flag) => Json::Bool(*flag),
            Json::Object(object) => Json::Object(object.clone()),
            Json::Other(value) => Json::Other(value.clone()),
        }
    }
}

impl Json {
    /// Whether this value stops serial dispatch: anything but `null`/`false`.
    pub open spec fn bails(self) -> bool {
        self != Json::Null && self != Json::Bool(false)
    }

    /// This is what some `serde_json` value opens to: no value that has a
    /// variant of its own hides in `Other`.
    pub open spec fn genuine(self) -> bool {
        self matches Json::Other(value) ==> opened(value) == self
    }

    /// The `serde_json` value that opens to this one.
    pub fn into_value(self) -> (res: serde_json::Value)
        ensures
            self.genuine() ==> opened(res) == self,
    {
        close_value(self)
    }

    /// The members of this value where it is an object; none otherwise.
    pub open spec fn members(self) -> Map<Seq<char>, serde_json::Value> {
        match self {
            Json::Object(object) => object_entries(object),
            _ => Map::empty(),
        }
    }
}

/// Members of `layers` merged from the first to the last: later layers win on
/// conflicting keys, and layers that are no objects add nothing.
pub open spec fn merged_members(layers: Seq<Json>) -> Map<Seq<char>, serde_json::Value>
    decreases layers.len(),
{
    if layers.len() == 0 {
        Map::empty()
    } else {
        merged_members(layers.drop_last()).union_prefer_right(layers.last().members())
    }
}

/// Copy every member of `layer` into `target`.
fn object_extend(
    target: &mut serde_json::Map<String, serde_json::Value>,
    layer: serde_json::Map<String, serde_json::Value>,
)
    ensures
        object_entries(*final(target)) == object_entries(*old(target)).union_prefer_right(
            object_entries(layer),
        ),
{
    let entries: Vec<(String, serde_json::Value)> = object_into_entries(layer);
    let ghost all = entries@;
    let ghost base = object_entries(*target);
    let mut i: usize = 0;
    assert(object_entries(*target) =~= base.union_prefer_right(bind_all(all.take(0))));
    while i < entries.len()
        invariant
            i <= entries@.len(),
            entries@ == all,
            object_entries(*target) == base.union_prefer_right(bind_all(all.take(i as int))),
        decreases entries@.len() - i,
    {
        let key: String = entries[i].0.clone();
        let value: serde_json::Value = entries[i].1.clone();
        object_insert(target, key, value);
        proof {
            let next = all.take(i + 1);
            assert(next.drop_last() =~= all.take(i as int));
            assert(next.last() == all[i as int]);
            assert(object_entries(*target) =~= base.union_prefer_right(bind_all(next)));
        }
        i = i + 1;
    }
    assert(all.take(all.len() as int) =~= all);
}

/// Merge `layers` into one object, outermost first: the first layer is
/// applied first, so that later layers win on conflicting keys.
pub fn merge_layers(layers: &Vec<Json>) -> (res: Json)
    ensures
        res is Object,
        res.members() == merged_members(layers@),
{
    let mut merged: serde_json::Map<String, serde_json::Value> = object_new();
    let mut i: usize = 0;
    while i < layers.len()
        invariant
            i <= layers@.len(),
            object_entries(merged) == merged_members(layers@.take(i as int)),
        decreases layers@.len() - i,
    {
        proof {
            let next = layers@.take(i + 1);
            assert(next.drop_last() =~= layers@.take(i as int));
            assert(next.last() == layers@[i as int]);
        }
        match &layers[i] {
            Json::Object(object) => {
                object_extend(&mut merged, object.clone());
            },
            _ => {
                assert(object_entries(merged) =~= object_entries(merged).union_prefer_right(
                    Map::empty(),
                ));
            },
        }
        i = i + 1;
    }
    assert(layers@.take(layers@.len() as int) =~= layers@);
    Json::Object(merged)
}

/// Of several layers every object counts and the last one that has a key
/// decides about it: a key is there exactly if some layer is an object that
/// has it, and its value is the one of the last such layer.
pub proof fn law_last_layer_with_the_key_wins(layers: Seq<Json>, key: Seq<char>, i: int)
    requires
        0 <= i < layers.len(),
        layers[i] matches Json::Object(object) && object_entries(object).contains_key(key),
        forall|j: int|
            i < j < layers.len() ==> !((#[trigger] layers[j]) matches Json::Object(object)
                && object_entries(object).contains_key(key)),
    ensures
        merged_members(layers).contains_key(key),
        layers[i] matches Json::Object(object) && merged_members(layers)[key] == object_entries(
            object,
        )[key],
    decreases layers.len(),
{
    let rest = layers.drop_last();
    if i < layers.len() - 1 {
        assert forall|j: int| i < j < rest.len() implies !((
        #[trigger] rest[j]) matches Json::Object(object) && object_entries(object).contains_key(
            key,
        )) by {
            assert(rest[j] == layers[j]);
        }
        assert(rest[i] == layers[i]);
        law_last_layer_with_the_key_wins(rest, key, i);
        assert(!(layers[layers.len() - 1] matches Json::Object(object) && object_entries(
            object,
        ).contains_key(key)));
    }
}

/// A key that no layer has is not there.
pub proof fn law_no_layer_no_key(layers: Seq<Json>, key: Seq<char>)
    requires
        forall|j: int|
            0 <= j < layers.len() ==> !((#[trigger] layers[j]) matches Json::Object(object)
                && object_entries(object).contains_key(key)),
    ensures
        !merged_members(layers).contains_key(key),
    decreases layers.len(),
{
    if layers.len() > 0 {
        let rest = layers.drop_last();
        assert forall|j: int| 0 <= j < rest.len() implies !((
        #[trigger] rest[j]) matches Json::Object(object) && object_entries(object).contains_key(
            key,
        )) by {
            assert(rest[j] == layers[j]);
        }
        law_no_layer_no_key(rest, key);
        assert(!(layers[layers.len() - 1] matches Json::Object(object) && object_entries(
            object,
        ).contains_key(key)));
    }
}

} // verus!
