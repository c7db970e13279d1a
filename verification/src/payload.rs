//! The payloads with which listeners hear of kernel events.

use vstd::prelude::*;

use crate::json::{object_entries, object_insert, object_new, Json};
use crate::root::{InternalEvent, InternalEventView};
use crate::text::texts;

verus! {

/// The JSON string of a text.
pub uninterp spec fn text_value(text: Seq<char>) -> serde_json::Value;

/// The JSON number of a uid, or null.
pub uninterp spec fn uid_value(uid: Option<u64>) -> serde_json::Value;

/// The JSON array of texts.
pub uninterp spec fn list_value(list: Seq<Seq<char>>) -> serde_json::Value;

/// `serde_json::Value::from` on a string: a JSON string, which depends on the
/// text alone.
#[verifier::external_body]
fn text_json(text: &str) -> (res: serde_json::Value)
    ensures
        res == text_value(text@),
{
    serde_json::Value::from(text)
}

/// `serde_json::Value::from` on an optional number: the JSON number, or null.
#[verifier::external_body]
fn uid_json(uid: Option<u64>) -> (res: serde_json::Value)
    ensures
        res == uid_value(uid),
{
    serde_json::Value::from(uid)
}

/// `serde_json::Value::from` on a list of strings: a JSON array of JSON
/// strings, in order.
#[verifier::external_body]
fn list_json(list: Vec<String>) -> (res: serde_json::Value)
    ensures
        res == list_value(texts(list@)),
{
    serde_json::Value::from(list)
}

impl InternalEventView {
    /// The members of the payload.
    pub open spec fn payload(self) -> Map<Seq<char>, serde_json::Value> {
        match self {
            InternalEventView::Status { fiber, uid, state } => Map::empty().insert(
                "fiber"@,
                text_value(fiber),
            ).insert("uid"@, uid_value(uid)).insert("state"@, text_value(state.text())),
            InternalEventView::PluginCreated { fiber, uid, inject } => Map::empty().insert(
                "event"@,
                text_value("created"@),
            ).insert("fiber"@, text_value(fiber)).insert("uid"@, uid_value(Some(uid))).insert(
                "inject"@,
                list_value(inject),
            ),
            InternalEventView::PluginDisposed { fiber, uid } => Map::empty().insert(
                "event"@,
                text_value("disposed"@),
            ).insert("fiber"@, text_value(fiber)).insert("uid"@, uid_value(Some(uid))),
            InternalEventView::Service { service } => Map::empty().insert(
                "service"@,
                text_value(service),
            ),
        }
    }
}

impl InternalEvent {
    /// The payload with which listeners hear of the event.
    pub fn payload(self) -> (res: Json)
        ensures
            res is Object,
            res.members() == self@.payload(),
            forall|key: Seq<char>| #[trigger]
                res.members().contains_key(key) <==> (match self {
                    InternalEvent::Status { .. } => key == "fiber"@ || key == "uid"@ || key
                        == "state"@,
                    InternalEvent::PluginCreated { .. } => key == "event"@ || key == "fiber"@
                        || key == "uid"@ || key == "inject"@,
                    InternalEvent::PluginDisposed { .. } => key == "event"@ || key == "fiber"@
                        || key == "uid"@,
                    InternalEvent::Service { .. } => key == "service"@,
                }),
    {
        let ghost event = self@;
        let mut object: serde_json::Map<String, serde_json::Value> = object_new();
        match self {
            InternalEvent::Status { fiber, uid, state } => {
                object_insert(&mut object, "fiber".to_owned(), text_json(fiber.as_str()));
                object_insert(&mut object, "uid".to_owned(), uid_json(uid));
                object_insert(&mut object, "state".to_owned(), text_json(state.as_str()));
            },
            InternalEvent::PluginCreated { fiber, uid, inject } => {
                object_insert(&mut object, "event".to_owned(), text_json("created"));
                object_insert(&mut object, "fiber".to_owned(), text_json(fiber.as_str()));
                object_insert(&mut object, "uid".to_owned(), uid_json(Some(uid)));
                object_insert(&mut object, "inject".to_owned(), list_json(inject));
            },
            InternalEvent::PluginDisposed { fiber, uid } => {
                object_insert(&mut object, "event".to_owned(), text_json("disposed"));
                object_insert(&mut object, "fiber".to_owned(), text_json(fiber.as_str()));
                object_insert(&mut object, "uid".to_owned(), uid_json(Some(uid)));
            },
            InternalEvent::Service { service } => {
                object_insert(&mut object, "service".to_owned(), text_json(service.as_str()));
            },
        }
        assert(object_entries(object) =~= event.payload());
        Json::Object(object)
    }
}

/// What listeners are told of a kernel event: of a transition the fiber, its uid
/// and the name of its state; of a plugin whether it was created or disposed
/// of, the fiber and its uid, and on creation what it requires; of a service
/// its name.
pub proof fn law_payload_tells_the_event(event: InternalEventView)
    ensures
        match event {
            InternalEventView::Status { fiber, uid, state } => {
                &&& event.payload()["fiber"@] == text_value(fiber)
                &&& event.payload()["uid"@] == uid_value(uid)
                &&& event.payload()["state"@] == text_value(state.text())
            },
            InternalEventView::PluginCreated { fiber, uid, inject } => {
                &&& event.payload()["event"@] == text_value("created"@)
                &&& event.payload()["fiber"@] == text_value(fiber)
                &&& event.payload()["uid"@] == uid_value(Some(uid))
                &&& event.payload()["inject"@] == list_value(inject)
            },
            InternalEventView::PluginDisposed { fiber, uid } => {
                &&& event.payload()["event"@] == text_value("disposed"@)
                &&& event.payload()["fiber"@] == text_value(fiber)
                &&& event.payload()["uid"@] == uid_value(Some(uid))
            },
            InternalEventView::Service { service } => event.payload()["service"@] == text_value(
                service,
            ),
        },
{
    reveal_strlit("fiber");
    reveal_strlit("uid");
    reveal_strlit("state");
    reveal_strlit("event");
    reveal_strlit("inject");
    assert("fiber"@[0] == 'f');
    assert("uid"@[0] == 'u');
    assert("state"@[0] == 's');
    assert("event"@[0] == 'e');
    assert("inject"@[0] == 'i');
}

} // verus!
