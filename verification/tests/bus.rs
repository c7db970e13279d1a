//! Event hooks, dispatch machines and JSON values.

use cordis::dispatch::{
    emit_sync_outcome, parallel_outcome, waterfall, Joined, NextCall, Serial, SerialState,
    SyncDispatch, SyncState,
};
use cordis::events::{listener_failure_line, Delivery, EventStore, Hook, ScopeFilter};
use cordis::json::merge_layers;
use cordis::{is_bailed, Context, CordisCode, Error, Json, Next};

fn json(text: &str) -> Json {
    Json::from(serde_json::from_str::<serde_json::Value>(text).unwrap())
}

fn hook(ctx: &Context, callback: u64, prepend: bool, global: bool) -> Hook {
    Hook { ctx: ctx.clone(), callback, prepend, global, sync: false }
}

fn numbers(deliveries: Vec<Delivery>) -> Vec<u64> {
    deliveries.iter().map(|d| d.callback).collect()
}

#[test]
fn hooks_are_called_in_order() {
    let (_root, ctx) = Context::new(1, 0);
    let mut store = EventStore::new();
    store.register("ping", hook(&ctx, 1, false, false));
    store.register("ping", hook(&ctx, 2, false, false));
    store.register("ping", hook(&ctx, 3, true, false));
    store.register("pong", hook(&ctx, 4, false, false));
    assert_eq!(numbers(store.dispatch("ping", &None)), [3, 1, 2]);
    assert!(store.unregister("ping", 1));
    assert!(!store.unregister("ping", 1));
    assert!(!store.unregister("nobody", 1));
    assert_eq!(numbers(store.dispatch("ping", &None)), [3, 2]);
    assert_eq!(numbers(store.dispatch("pong", &None)), [4]);
    assert!(store.dispatch("nobody", &None).is_empty());
}

#[test]
fn filters_spare_global_hooks() {
    let (mut root, ctx) = Context::new(1, 0);
    let scoped = ctx.isolate_with_label(&mut root, "cache", 5);
    let mut store = EventStore::new();
    store.register("ping", hook(&ctx, 1, false, false));
    store.register("ping", hook(&scoped, 2, false, false));
    store.register("ping", hook(&ctx, 3, false, true));
    let filter = |label| Some(ScopeFilter { name: "cache".to_string(), label });
    assert_eq!(numbers(store.dispatch("ping", &filter(5))), [2, 3]);
    assert_eq!(numbers(store.dispatch("ping", &filter(0))), [1, 3]);
    assert_eq!(numbers(store.dispatch("ping", &filter(9))), [3]);
}

#[test]
fn only_null_and_false_do_not_bail() {
    for text in ["null", "false"] {
        assert!(!is_bailed(&json(text)), "{}", text);
    }
    for text in ["true", "0", "\"\"", "[]", "{}", "1.5"] {
        assert!(is_bailed(&json(text)), "{}", text);
    }
}

#[test]
fn values_open_and_close() {
    for text in ["null", "false", "true", "0", "1.5", "\"x\"", "[1,{}]", "{\"a\":[null]}"] {
        let value: serde_json::Value = serde_json::from_str(text).unwrap();
        assert_eq!(Json::from(value.clone()).into_value(), value);
    }
    assert_eq!(json("null"), Json::Null);
    assert_eq!(json("true"), Json::Bool(true));
    assert!(matches!(json("{}"), Json::Object(_)));
    assert!(matches!(json("[]"), Json::Other(_)));
    let object = json(r#"{ "a": 1, "b": { "c": 2 } }"#);
    assert_eq!(object.clone(), object);
}

#[test]
fn later_layers_win() {
    let merged = merge_layers(&vec![
        json(r#"{ "a": 1, "b": 1 }"#),
        json("7"),
        json(r#"{ "b": 2, "c": { "x": 1 } }"#),
        json(r#"{ "c": { "y": 2 } }"#),
    ]);
    assert_eq!(merged, json(r#"{ "a": 1, "b": 2, "c": { "y": 2 } }"#));
    assert_eq!(merge_layers(&vec![]), json("{}"));
}

#[test]
fn waterfalls_run_outermost_first() {
    let (_root, ctx) = Context::new(1, 0);
    let delivery = |callback| Delivery { ctx: ctx.clone(), callback, sync: false };
    let call = waterfall(ctx.clone(), &vec![delivery(1), delivery(2)], json("0"), Some(9));
    let rest = match call {
        NextCall::Listener { callback, payload, rest, .. } => {
            assert_eq!((callback, payload), (1, json("0")));
            rest
        }
        _ => panic!("the first listener"),
    };
    let rest = match rest.run(json("1")) {
        NextCall::Listener { callback, payload, rest, .. } => {
            assert_eq!((callback, payload), (2, json("1")));
            rest
        }
        _ => panic!("the second listener"),
    };
    match rest.clone().run(json("5")) {
        NextCall::Fallback { payload, .. } => assert_eq!(payload, json("5")),
        _ => panic!("the fallback"),
    }
    match rest.run(json("2")) {
        NextCall::Fallback { fallback, payload } => assert_eq!((fallback, payload), (9, json("2"))),
        _ => panic!("the fallback"),
    }
    match Next::with_steps(ctx.clone(), vec![], None).run(json("3")) {
        NextCall::Value(payload) => assert_eq!(payload, json("3")),
        _ => panic!("the payload"),
    }
    match Next::terminal(ctx.clone(), 4).run(Json::Null) {
        NextCall::Fallback { fallback, .. } => assert_eq!(fallback, 4),
        _ => panic!("the fallback"),
    }
}

#[test]
fn serial_ends_at_an_error() {
    let (_root, ctx) = Context::new(1, 0);
    let delivery = |callback| Delivery { ctx: ctx.clone(), callback, sync: false };
    let state = Serial::start(vec![delivery(1), delivery(2)], json("0"));
    let serial = match state {
        SerialState::Waiting(serial) => serial,
        SerialState::Done(_) => panic!("two listeners"),
    };
    assert_eq!(serial.current().callback, 1);
    let serial = match serial.answered(Ok(Json::Null)) {
        SerialState::Waiting(serial) => serial,
        SerialState::Done(_) => panic!("one more listener"),
    };
    assert_eq!(serial.current().callback, 2);
    match serial.answered(Err(Error::msg("boom"))) {
        SerialState::Done(Err(error)) => assert_eq!(error.render(), "boom"),
        _ => panic!("the error"),
    }
    match Serial::start(vec![], json("5")) {
        SerialState::Done(Ok(payload)) => assert_eq!(payload, json("5")),
        _ => panic!("the payload"),
    }
}

#[test]
fn sync_slot_takes_its_turns_in_order() {
    let (_root, ctx) = Context::new(1, 0);
    let delivery = |callback, sync| Delivery { ctx: ctx.clone(), callback, sync };
    let listeners =
        vec![delivery(1, true), delivery(2, false), delivery(3, true), delivery(4, false)];
    let turn = match SyncDispatch::start(listeners) {
        SyncState::Await(turn) => turn,
        _ => panic!("awaited"),
    };
    assert_eq!(turn.current().callback, 1);
    let turn = match turn.answered(Err(Error::msg("boom"))) {
        SyncState::Spawn(turn) => turn,
        _ => panic!("not awaited"),
    };
    assert_eq!(turn.current().callback, 2);
    let turn = match turn.spawned() {
        SyncState::Await(turn) => turn,
        _ => panic!("awaited"),
    };
    // A failure does not keep later listeners from being called.
    assert_eq!(turn.current().callback, 3);
    let turn = match turn.answered(Ok(Json::Null)) {
        SyncState::Spawn(turn) => turn,
        _ => panic!("not awaited"),
    };
    assert_eq!(turn.current().callback, 4);
    match turn.spawned() {
        SyncState::Done(Err(Error::Aggregate(errors))) => {
            assert_eq!(errors.len(), 1);
            assert_eq!(errors[0].render(), "boom");
        }
        _ => panic!("an aggregate"),
    }
    match SyncDispatch::start(vec![]) {
        SyncState::Done(outcome) => assert!(outcome.is_ok()),
        _ => panic!("nobody to call"),
    }
}

#[test]
fn parallel_reports_every_failure() {
    assert_eq!(parallel_outcome(json("1"), vec![Joined::Finished], false).unwrap(), json("1"));
    let ended = vec![
        Joined::Failed(Error::msg("a")),
        Joined::Finished,
        Joined::Lost("task panicked".to_string()),
    ];
    match parallel_outcome(json("1"), ended, false) {
        Err(Error::Aggregate(errors)) => {
            let texts: Vec<String> = errors.iter().map(|e| e.render()).collect();
            assert_eq!(texts, ["a", "task panicked"]);
        }
        _ => panic!("an aggregate"),
    }
    let error = parallel_outcome(json("1"), vec![Joined::Finished], true).unwrap_err();
    assert_eq!(error.code(), Some(CordisCode::Timeout.as_str()));
    assert!(emit_sync_outcome(vec![Ok(Json::Null)]).is_ok());
    assert!(emit_sync_outcome(vec![]).is_ok());
}

#[test]
fn failed_listeners_are_named() {
    assert_eq!(
        listener_failure_line("ping", &Error::msg("boom")),
        "[ping] listener failed: boom"
    );
}
