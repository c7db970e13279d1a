//! Texts, errors, log lines and declarations.

use std::sync::{Arc, Mutex};

use cordis::error::{validation_error_from_json, validation_error_from_text, SharedError};
use cordis::logger::event_line;
use cordis::plugin::{declares_service, normalize_inject};
use cordis::text::{decimal, join3};
use cordis::{
    CordisCode, CordisError, DefaultLogger, Error, FiberState, Injection, Json, LevelFilter,
    LogLevel, Logger, LoggerHandle, ValidationError, ValidationIssue,
};

#[test]
fn decimal_numerals() {
    assert_eq!(decimal(0), "0");
    assert_eq!(decimal(7), "7");
    assert_eq!(decimal(10), "10");
    assert_eq!(decimal(907), "907");
    assert_eq!(decimal(u64::MAX), "18446744073709551615");
    assert_eq!(join3("a", "", "b"), "ab");
}

#[test]
fn codes_have_stable_texts() {
    let texts = [
        (CordisCode::InactiveEffect, "cannot create effect on inactive context"),
        (CordisCode::InvalidPlugin, "invalid plugin"),
        (CordisCode::DuplicateService, "service has already been registered"),
        (CordisCode::ForeignService, "cannot set service provided by another fiber"),
        (CordisCode::ServiceUnavailable, "cannot get required service in inactive context"),
        (CordisCode::Timeout, "operation timed out"),
    ];
    for (code, text) in texts {
        assert_eq!(code.as_str(), text);
        let error = Error::from(CordisError::new(code));
        assert_eq!(error.render(), text);
        assert_eq!(error.code(), Some(text));
        let detailed = Error::from(CordisError::with_message(code, "details"));
        assert_eq!(detailed.render(), "details");
        assert_eq!(detailed.code(), Some(text));
    }
}

#[test]
fn validation_issues_are_listed() {
    let issue = ValidationIssue::new(Some("server.port".to_string()), "expected a number");
    assert_eq!(issue.render(), "expected a number (at server.port)");
    let bare = ValidationIssue::new(None, "missing");
    assert_eq!(bare.render(), "missing");
    let error = ValidationError(vec![issue, bare]);
    assert_eq!(
        error.render(),
        "invalid config (2 issues):   - expected a number (at server.port);   - missing"
    );
    assert_eq!(ValidationError(vec![]).render(), "invalid config (0 issues): ");
    let error = Error::from(error);
    assert_eq!(error.code(), Some("validation"));
    assert_eq!(error.clone().render(), error.render());
}

#[test]
fn json_errors_become_validation_errors() {
    let error = serde_json::from_str::<u16>("true").unwrap_err();
    let text = error.to_string();
    let validation = validation_error_from_json(error);
    assert_eq!(validation.0.len(), 1);
    assert_eq!(validation.0[0].path, None);
    assert_eq!(validation.0[0].message, text);
    assert_eq!(validation.render(), format!("invalid config (1 issues):   - {}", text));
    assert_eq!(validation_error_from_text("bad").render(), "invalid config (1 issues):   - bad");
}

#[test]
fn other_errors_have_no_code() {
    for error in [
        Error::msg("boom"),
        Error::from("boom".to_string()),
        Error::from(SharedError("boom".to_string())),
    ] {
        assert_eq!(error.render(), "boom");
        assert_eq!(error.code(), None);
    }
    let error = Error::aggregate(vec![Error::msg("a"), Error::msg("b")]);
    assert_eq!(error.render(), "aggregate error (2 failures)");
    assert_eq!(error.code(), Some("aggregate"));
    assert_eq!(error.clone().render(), "aggregate error (2 failures)");
}

#[test]
fn log_lines_are_filtered_by_level() {
    let logger = DefaultLogger::new();
    assert_eq!(logger.line(LogLevel::Debug, "x"), None);
    assert_eq!(logger.line(LogLevel::Info, "x").unwrap(), "[INFO] x");
    assert_eq!(logger.line(LogLevel::Warn, "x").unwrap(), "[WARN] x");
    let logger = DefaultLogger::with_min_level(LogLevel::Error);
    assert_eq!(logger.line(LogLevel::Warn, "x"), None);
    assert_eq!(logger.line(LogLevel::Error, "x").unwrap(), "[ERROR] x");
    assert!(LevelFilter::new(LogLevel::Debug).allows(LogLevel::Debug));
    assert_eq!(DefaultLogger::default().line(LogLevel::Debug, "x"), None);
}

struct Sink(Mutex<Vec<String>>);

impl Logger for Sink {
    fn log(&self, level: LogLevel, message: String) {
        self.0.lock().unwrap().push(format!("{} {}", level.as_str(), message));
    }
}

#[test]
fn structured_records_fold_into_lines() {
    assert_eq!(event_line("fiber", &None, "boom"), "[fiber] boom");
    assert_eq!(event_line("fiber", &Some("validation".to_string()), "boom"), "[fiber] boom (validation)");
    let sink = Arc::new(Sink(Mutex::new(Vec::new())));
    let handle = LoggerHandle(sink.clone());
    handle.0.log_event(LogLevel::Error, "fiber".to_string(), None, "boom".to_string());
    assert_eq!(*sink.0.lock().unwrap(), ["ERROR [fiber] boom"]);
}

#[test]
fn declarations_come_in_many_shapes() {
    let names = |list: &Vec<Injection>| -> Vec<String> {
        list.iter().map(|i| i.service.clone()).collect()
    };
    assert_eq!(names(&normalize_inject(vec!["a", "b"])), ["a", "b"]);
    assert_eq!(names(&normalize_inject(["a", "b"])), ["a", "b"]);
    assert_eq!(names(&normalize_inject(vec!["a".to_string()])), ["a"]);
    assert_eq!(names(&normalize_inject(["a", "b"].as_slice())), ["a", "b"]);
    assert_eq!(names(&normalize_inject(["a".to_string()].as_slice())), ["a"]);
    let one = Injection::with_config("a", Json::Bool(true));
    let list = normalize_inject(one);
    assert_eq!(names(&list), ["a"]);
    assert_eq!(list[0].config, Some(Json::Bool(true)));
    let list = normalize_inject(vec![Injection::new("x"), Injection::new("y")]);
    assert!(declares_service(&list, "y"));
    assert!(!declares_service(&list, "z"));
}

#[test]
fn states_survive_their_mirror() {
    let states = [
        (FiberState::Pending, "pending"),
        (FiberState::Loading, "loading"),
        (FiberState::Active, "active"),
        (FiberState::Failed, "failed"),
        (FiberState::Unloading, "unloading"),
        (FiberState::Disposed, "disposed"),
    ];
    for (state, text) in states {
        assert_eq!(state.as_str(), text);
        assert_eq!(FiberState::from_repr(state.repr()), Some(state));
    }
    assert_eq!(FiberState::from_repr(6), None);
}
