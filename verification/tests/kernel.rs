//! Scenarios: a synchronous runner drives the kernel, whose plugins, listeners
//! and services are plain closures and strings.

use std::cell::RefCell;
use std::collections::VecDeque;
use std::rc::Rc;

use cordis::bus::Fanout;
use cordis::dispatch::{parallel_outcome, Joined, Next, NextCall, SerialState, SyncState};
use cordis::driver::{Action, Driver, Event};
use cordis::effects::Registered;
use cordis::error::validation_error_from_json;
use cordis::events::Delivery;
use cordis::logger::LogLevel;
use cordis::once::OnceGate;
use cordis::resolve::{missing_service, Notice, Probe, Reading};
use cordis::root::Command;
use cordis::timer::{
    IntervalStream, TimeoutFuture, TimerContextExt, TimerService, TimerSignal, DISPOSED_MESSAGE,
};
use cordis::{
    Context, CordisCode, Disposer, EffectGuard, Error, FiberHandle, FiberState, Injection,
    IntoInjections, Json, RootState,
};

type Body = Rc<dyn Fn(&mut Kernel, &Context, &Json) -> Result<(), Error>>;
type Resolve = Rc<dyn Fn(&Json) -> Result<Json, Error>>;
type Listener = Rc<dyn Fn(&mut Kernel, &Context, Json, Option<Next>) -> Result<Json, Error>>;
type Check = Rc<dyn Fn(&mut Kernel, &Context) -> bool>;
type Compute = Rc<dyn Fn(&mut Kernel, &Context) -> Option<String>>;
type Task = Rc<dyn Fn(&mut Kernel)>;
type Fallback = Rc<dyn Fn(&mut Kernel, Json) -> Result<Json, Error>>;

#[derive(Clone)]
struct Plugin {
    key: u64,
    name: &'static str,
    inject: Vec<&'static str>,
    resolve: Resolve,
    body: Body,
    held: bool,
}

struct Kernel {
    root: RootState,
    ctx: Context,
    plugins: Vec<Plugin>,
    values: Vec<String>,
    listeners: Vec<Listener>,
    checks: Vec<Check>,
    computes: Vec<Compute>,
    tasks: Vec<Task>,
    fallbacks: Vec<Fallback>,
    /// Drivers whose plugin is held back, with the chain of config hooks.
    parked: Vec<(Driver, NextCall)>,
    logged: Vec<(LogLevel, String, Option<String>, String)>,
    /// Which loggers wrote these records.
    loggers: Vec<String>,
    /// Listeners of internal events that failed, with the logger that is told.
    complaints: Vec<(String, String)>,
    settled: Vec<usize>,
}

fn json(text: &str) -> Json {
    Json::from(serde_json::from_str::<serde_json::Value>(text).unwrap())
}

fn member(value: &Json, key: &str) -> Option<String> {
    match value {
        Json::Object(object) => object.get(key).and_then(|v| v.as_str()).map(|s| s.to_string()),
        _ => None,
    }
}

fn with_member(value: Json, key: &str, text: &str) -> Json {
    match value {
        Json::Object(mut object) => {
            object.insert(key.to_string(), serde_json::from_str(text).unwrap());
            Json::Object(object)
        }
        other => other,
    }
}

impl Kernel {
    fn new() -> Kernel {
        let (root, ctx) = Context::new(1, 0);
        Kernel {
            root,
            ctx,
            plugins: Vec::new(),
            values: vec!["default logger".to_string()],
            listeners: Vec::new(),
            checks: Vec::new(),
            computes: Vec::new(),
            tasks: Vec::new(),
            fallbacks: Vec::new(),
            parked: Vec::new(),
            logged: Vec::new(),
            loggers: Vec::new(),
            complaints: Vec::new(),
            settled: Vec::new(),
        }
    }

    fn define(
        &mut self,
        name: &'static str,
        inject: Vec<&'static str>,
        body: impl Fn(&mut Kernel, &Context, &Json) -> Result<(), Error> + 'static,
    ) -> Plugin {
        let key = self.plugins.len() as u64 + 1;
        let plugin = Plugin {
            key,
            name,
            inject,
            resolve: Rc::new(|raw| Ok(raw.clone())),
            body: Rc::new(body),
            held: false,
        };
        self.plugins.push(plugin.clone());
        plugin
    }

    fn redefine(&mut self, plugin: &Plugin) {
        self.plugins[plugin.key as usize - 1] = plugin.clone();
    }

    fn start(&mut self, ctx: &Context, plugin: &Plugin, config: Option<Json>) -> FiberHandle {
        let inject: Vec<Injection> =
            plugin.inject.iter().map(|name| Injection::new(name)).collect();
        let started = ctx.plugin(&mut self.root, plugin.key, plugin.name, inject, config);
        let verdicts = self.ask(&started.probes);
        self.root.finish_plugin(started.handle.0, started.probes, &verdicts);
        started.handle
    }

    fn inject<I: IntoInjections>(
        &mut self,
        deps: I,
        body: impl Fn(&mut Kernel, &Context, &Json) -> Result<(), Error> + 'static,
    ) -> FiberHandle {
        let plugin = self.define("anonymous", vec![], body);
        let ctx = self.ctx.clone();
        let started = ctx.inject(&mut self.root, plugin.key, deps);
        let verdicts = self.ask(&started.probes);
        self.root.finish_plugin(started.handle.0, started.probes, &verdicts);
        started.handle
    }

    /// Run the availability predicates that the probes call for.
    fn ask(&mut self, probes: &Vec<Probe>) -> Vec<bool> {
        let mut verdicts = Vec::new();
        for probe in probes {
            let check = probe.candidate.as_ref().and_then(|c| c.check);
            let verdict = match check {
                Some(number) => {
                    let ctx = self.root.fibers[probe.fiber].ctx.clone();
                    let check = self.checks[number as usize].clone();
                    check(self, &ctx)
                }
                None => true,
            };
            verdicts.push(verdict);
        }
        verdicts
    }

    fn tell(&mut self, notice: Notice) {
        let verdicts = self.ask(&notice.probes);
        self.root.finish_notice(notice, &verdicts);
    }

    fn registered(&mut self, outcome: Result<Registered, Error>) -> Result<EffectGuard, Error> {
        let registered = outcome?;
        self.tell(registered.notice);
        Ok(registered.guard)
    }

    fn provide(&mut self, ctx: &Context, name: &str, value: &str) -> Result<EffectGuard, Error> {
        self.values.push(value.to_string());
        let number = self.values.len() as u64 - 1;
        let outcome = ctx.provide(&mut self.root, name, number);
        self.registered(outcome)
    }

    fn provide_with_check(
        &mut self,
        ctx: &Context,
        name: &str,
        value: &str,
        check: impl Fn(&mut Kernel, &Context) -> bool + 'static,
    ) -> Result<EffectGuard, Error> {
        self.values.push(value.to_string());
        let number = self.values.len() as u64 - 1;
        self.checks.push(Rc::new(check));
        let predicate = self.checks.len() as u64 - 1;
        let outcome = ctx.provide_with_check(&mut self.root, name, number, predicate);
        self.registered(outcome)
    }

    fn accessor(
        &mut self,
        ctx: &Context,
        name: &str,
        compute: impl Fn(&mut Kernel, &Context) -> Option<String> + 'static,
    ) -> Result<EffectGuard, Error> {
        self.computes.push(Rc::new(compute));
        let number = self.computes.len() as u64 - 1;
        let outcome = ctx.accessor(&mut self.root, name, number);
        self.registered(outcome)
    }

    fn get(&mut self, ctx: &Context, name: &str) -> Option<String> {
        match ctx.get(&self.root, name) {
            Reading::Missing => None,
            Reading::Value(number) => Some(self.values[number as usize].clone()),
            Reading::Compute(number) => {
                let compute = self.computes[number as usize].clone();
                compute(self, ctx)
            }
        }
    }

    fn require(&mut self, ctx: &Context, name: &str) -> Result<String, Error> {
        ctx.require(&self.root, name)?;
        self.get(ctx, name).ok_or_else(|| missing_service(name))
    }

    fn set(&mut self, ctx: &Context, name: &str, value: &str) -> Result<(), Error> {
        self.values.push(value.to_string());
        let number = self.values.len() as u64 - 1;
        ctx.set(&mut self.root, name, number)
    }

    fn effect(
        &mut self,
        ctx: &Context,
        label: &str,
        cleanup: impl Fn(&mut Kernel) + 'static,
    ) -> Result<EffectGuard, Error> {
        let fiber = ctx.effect(&self.root)?;
        self.tasks.push(Rc::new(cleanup));
        let task = self.tasks.len() as u64 - 1;
        Ok(self.root.commit_effect(fiber, label.to_string(), Some(Disposer::Task(task))))
    }

    fn dispose_effect(&mut self, guard: &EffectGuard) {
        let driver = Driver::for_effect(&mut self.root, *guard);
        self.run(driver, Event::Go);
        self.pump();
    }

    /// Run a driver until it ends or its plugin is held back.
    fn run(&mut self, driver: Driver, event: Event) {
        let mut driver = driver;
        let mut event = event;
        loop {
            let (next, action) = driver.advance(&mut self.root, event);
            driver = next;
            event = match action {
                Action::Continue => Event::Go,
                Action::Clean(task) => {
                    let cleanup = self.tasks[task as usize].clone();
                    cleanup(self);
                    Event::Cleaned
                }
                Action::Ask => Event::Verdicts(self.ask(driver.probes().expect("probes"))),
                Action::Resolve { call } => {
                    let plugin = self.plugin_of(driver.fiber);
                    if plugin.held {
                        self.parked.push((driver, call));
                        return;
                    }
                    Event::Resolved(self.resolve(driver.fiber, call))
                }
                Action::Apply { config } => {
                    let plugin = self.plugin_of(driver.fiber);
                    let ctx = self.root.fibers[driver.fiber].ctx.clone();
                    Event::Applied((plugin.body)(self, &ctx, &config))
                }
                Action::End => return,
            };
        }
    }

    fn plugin_of(&self, fiber: usize) -> Plugin {
        let key = self.root.fibers[fiber].runtime.expect("a plugin fiber");
        self.plugins[key as usize - 1].clone()
    }

    fn resolve(&mut self, fiber: usize, call: NextCall) -> Result<Json, Error> {
        let plugin = self.plugin_of(fiber);
        let value = self.next(call)?;
        (plugin.resolve)(&value)
    }

    /// Let every plugin body that is held back run.
    fn release(&mut self) {
        for (driver, call) in std::mem::take(&mut self.parked) {
            let resolved = self.resolve(driver.fiber, call);
            self.run(driver, Event::Resolved(resolved));
        }
        self.pump();
    }

    /// Carry out commands until none is left.
    fn pump(&mut self) {
        loop {
            let mut commands: VecDeque<Command> = self.root.take_outbox().into();
            if commands.is_empty() {
                return;
            }
            while let Some(command) = commands.pop_front() {
                match command {
                    Command::Drive(f) => self.run(Driver::new(f), Event::Go),
                    Command::Settle(f) => self.settled.push(f),
                    Command::Emit { ctx, event, deliveries } => {
                        let name = event.name();
                        let payload = event.payload();
                        for delivery in deliveries {
                            if self.call(&delivery, payload.clone()).is_err() {
                                let logger = self.get(&ctx, "logger").unwrap_or_default();
                                self.complaints.push((name.to_string(), logger));
                            }
                        }
                    }
                    Command::Log { ctx, level, topic, code, message } => {
                        let logger = self.get(&ctx, "logger").unwrap_or_default();
                        self.loggers.push(logger);
                        self.logged.push((level, topic, code, message));
                    }
                }
            }
        }
    }

    fn join(&mut self, fiber: FiberHandle) -> Result<(), Error> {
        self.pump();
        fiber.join(&self.root).expect("settled")
    }

    fn dispose(&mut self, fiber: FiberHandle) {
        if fiber.dispose(&mut self.root) {
            self.pump();
            self.root.publish_state(fiber.0);
            self.pump();
        }
    }

    fn stop(&mut self) {
        let ctx = self.ctx.clone();
        for f in ctx.stop(&self.root) {
            self.dispose(FiberHandle(f));
        }
    }

    fn restart(&mut self, fiber: FiberHandle) -> Result<(), Error> {
        fiber.restart(&mut self.root)?;
        self.join(fiber)
    }

    fn update(&mut self, fiber: FiberHandle, config: Json) -> Result<Json, Error> {
        let number = self.fallbacks.len() as u64;
        self.fallbacks.push(Rc::new(move |kernel, config| {
            fiber.apply_update(&mut kernel.root, config)?;
            kernel.join(fiber)?;
            Ok(Json::Null)
        }));
        let call = fiber.update(&self.root, config, number)?;
        let chain = self.next(call);
        fiber.update_outcome(&self.root, chain)
    }

    fn listener(
        &mut self,
        listener: impl Fn(&mut Kernel, &Context, Json, Option<Next>) -> Result<Json, Error> + 'static,
    ) -> u64 {
        self.listeners.push(Rc::new(listener));
        self.listeners.len() as u64 - 1
    }

    fn on(
        &mut self,
        ctx: &Context,
        name: &str,
        listener: impl Fn(&mut Kernel, &Context, Json, Option<Next>) -> Result<Json, Error> + 'static,
    ) -> Result<EffectGuard, Error> {
        let callback = self.listener(listener);
        ctx.on(&mut self.root, name, callback)
    }

    fn on_global(
        &mut self,
        ctx: &Context,
        name: &str,
        listener: impl Fn(&mut Kernel, &Context, Json, Option<Next>) -> Result<Json, Error> + 'static,
    ) -> Result<EffectGuard, Error> {
        let callback = self.listener(listener);
        ctx.on_global(&mut self.root, name, callback)
    }

    fn call(&mut self, delivery: &Delivery, payload: Json) -> Result<Json, Error> {
        let listener = self.listeners[delivery.callback as usize].clone();
        listener(self, &delivery.ctx, payload, None)
    }

    fn emit(&mut self, ctx: &Context, name: &str, payload: Json) {
        for delivery in ctx.emit(&self.root, name) {
            let _ = self.call(&delivery, payload.clone());
        }
    }

    fn emit_sync(&mut self, ctx: &Context, name: &str, payload: Json) -> Result<(), Error> {
        let mut state = ctx.emit_sync(&self.root, name);
        loop {
            state = match state {
                SyncState::Done(outcome) => return outcome,
                SyncState::Await(turn) => {
                    let delivery = turn.current().clone();
                    let answer = self.call(&delivery, payload.clone());
                    turn.answered(answer)
                }
                SyncState::Spawn(turn) => {
                    let delivery = turn.current().clone();
                    let _ = self.call(&delivery, payload.clone());
                    turn.spawned()
                }
            };
        }
    }

    fn parallel(&mut self, ctx: &Context, name: &str, payload: Json) -> Result<Json, Error> {
        match ctx.parallel(&self.root, name, payload) {
            Fanout::Done(payload) => Ok(payload),
            Fanout::Wait { listeners, payload } => {
                let mut ended = Vec::new();
                for delivery in listeners {
                    ended.push(match self.call(&delivery, payload.clone()) {
                        Ok(_) => Joined::Finished,
                        Err(error) => Joined::Failed(error),
                    });
                }
                parallel_outcome(payload, ended, false)
            }
        }
    }

    fn serial(&mut self, ctx: &Context, name: &str, payload: Json) -> Result<Json, Error> {
        let mut state = ctx.serial(&self.root, name, payload);
        loop {
            match state {
                SerialState::Done(outcome) => return outcome,
                SerialState::Waiting(serial) => {
                    let delivery = serial.current().clone();
                    let answer = self.call(&delivery, serial.payload.clone());
                    state = serial.answered(answer);
                }
            }
        }
    }

    fn next(&mut self, call: NextCall) -> Result<Json, Error> {
        match call {
            NextCall::Listener { callback, ctx, payload, rest } => {
                let listener = self.listeners[callback as usize].clone();
                listener(self, &ctx, payload, Some(rest))
            }
            NextCall::Fallback { fallback, payload } => {
                let fallback = self.fallbacks[fallback as usize].clone();
                fallback(self, payload)
            }
            NextCall::Value(payload) => Ok(payload),
        }
    }

    fn waterfall(
        &mut self,
        ctx: &Context,
        name: &str,
        payload: Json,
        fallback: impl Fn(&mut Kernel, Json) -> Result<Json, Error> + 'static,
    ) -> Result<Json, Error> {
        self.fallbacks.push(Rc::new(fallback));
        let number = self.fallbacks.len() as u64 - 1;
        let call = ctx.waterfall(&self.root, name, payload, number);
        self.next(call)
    }

    fn state(&self, fiber: FiberHandle) -> FiberState {
        fiber.state(&self.root)
    }

    fn bit(&self, uid: u64) -> bool {
        self.root.active_fibers & (1u64 << uid) != 0
    }
}

type Log = Rc<RefCell<Vec<String>>>;

fn log() -> Log {
    Rc::new(RefCell::new(Vec::new()))
}

fn lines(log: &Log) -> Vec<String> {
    log.borrow().clone()
}

fn database_plugin(kernel: &mut Kernel) -> Plugin {
    kernel.define("database", vec![], |kernel, ctx, config| {
        kernel.effect(ctx, "db connection", |_| {})?;
        let url = member(config, "url").unwrap_or_default();
        kernel.provide(ctx, "database", &url)?;
        Ok(())
    })
}

fn consumer_plugin(kernel: &mut Kernel, log: Log) -> Plugin {
    kernel.define("api", vec!["database"], move |kernel, ctx, _config| {
        let url = kernel.require(ctx, "database")?;
        log.borrow_mut().push(format!("api started with {}", url));
        Ok(())
    })
}

// ---------------------------------------------------------------------------
// Reactive lifecycle
// ---------------------------------------------------------------------------

#[test]
fn pending_until_dependency_provided() {
    let mut kernel = Kernel::new();
    let ctx = kernel.ctx.clone();
    let seen = log();
    let sink = seen.clone();
    let api = kernel.inject(vec!["database"], move |kernel, ctx, _config| {
        let url = kernel.require(ctx, "database")?;
        sink.borrow_mut().push(format!("anon started with {}", url));
        Ok(())
    });
    kernel.pump();
    assert_eq!(kernel.state(api), FiberState::Pending);
    assert!(kernel.get(&ctx, "database").is_none());

    let database = database_plugin(&mut kernel);
    let provider = kernel.start(&ctx, &database, Some(json(r#"{ "url": "postgres://x" }"#)));
    kernel.join(provider).expect("provider starts");

    kernel.join(api).expect("consumer activates once dep appears");
    assert_eq!(kernel.state(api), FiberState::Active);
    assert_eq!(lines(&seen), ["anon started with postgres://x"]);
    kernel.stop();
}

#[test]
fn dependent_unloads_when_provider_disappears_and_reloads_on_return() {
    let mut kernel = Kernel::new();
    let ctx = kernel.ctx.clone();
    let seen = log();
    let api = consumer_plugin(&mut kernel, seen.clone());
    let consumer = kernel.start(&ctx, &api, None);

    let database_a = database_plugin(&mut kernel);
    let provider_a = kernel.start(&ctx, &database_a, Some(json(r#"{ "url": "db-a" }"#)));
    kernel.join(provider_a).unwrap();
    kernel.join(consumer).unwrap();
    assert_eq!(kernel.state(consumer), FiberState::Active);
    assert_eq!(lines(&seen), ["api started with db-a"]);

    kernel.dispose(provider_a);
    kernel.join(consumer).unwrap();
    assert_eq!(kernel.state(consumer), FiberState::Pending);
    assert!(kernel.get(&ctx, "database").is_none());

    let database_b = database_plugin(&mut kernel);
    let provider_b = kernel.start(&ctx, &database_b, Some(json(r#"{ "url": "db-b" }"#)));
    kernel.join(provider_b).unwrap();
    kernel.join(consumer).unwrap();
    assert_eq!(kernel.state(consumer), FiberState::Active);
    assert_eq!(lines(&seen), ["api started with db-a", "api started with db-b"]);
    kernel.stop();
}

#[test]
fn restart_reloads_with_same_config() {
    let mut kernel = Kernel::new();
    let ctx = kernel.ctx.clone();
    let seen = log();
    let api = consumer_plugin(&mut kernel, seen.clone());
    let consumer = kernel.start(&ctx, &api, None);
    let database = database_plugin(&mut kernel);
    let provider = kernel.start(&ctx, &database, Some(json(r#"{ "url": "same" }"#)));
    kernel.join(provider).unwrap();
    kernel.join(consumer).unwrap();
    let runs_before = seen.borrow().len();

    kernel.restart(consumer).expect("restart succeeds");
    assert!(seen.borrow().len() > runs_before);
    assert_eq!(kernel.state(consumer), FiberState::Active);
    kernel.stop();
}

#[test]
fn update_applies_new_config_through_waterfall() {
    let mut kernel = Kernel::new();
    let ctx = kernel.ctx.clone();
    let seen = log();
    let sink = seen.clone();
    let greeter = kernel.define("greeter", vec![], move |_kernel, _ctx, config| {
        sink.borrow_mut().push(member(config, "name").unwrap());
        Ok(())
    });
    let fiber = kernel.start(&ctx, &greeter, Some(json(r#"{ "name": "v1" }"#)));
    kernel.join(fiber).unwrap();
    assert_eq!(lines(&seen), ["v1"]);

    let config = kernel.update(fiber, json(r#"{ "name": "v2" }"#)).expect("hot update");
    assert_eq!(config, json(r#"{ "name": "v2" }"#));
    assert_eq!(lines(&seen), ["v1", "v2"]);
    assert_eq!(kernel.state(fiber), FiberState::Active);
    kernel.stop();
}

#[test]
fn failed_config_marks_failed_and_recovers_on_update() {
    let mut kernel = Kernel::new();
    let ctx = kernel.ctx.clone();
    let mut server = kernel.define("server", vec![], |_kernel, _ctx, _config| Ok(()));
    server.resolve = Rc::new(|raw| {
        let port = match raw {
            Json::Object(object) => object.get("port").cloned(),
            _ => None,
        };
        match serde_json::from_value::<u16>(port.unwrap_or(serde_json::Value::Null)) {
            Ok(_) => Ok(raw.clone()),
            Err(error) => Err(Error::from(validation_error_from_json(error))),
        }
    });
    kernel.redefine(&server);
    let fiber = kernel.start(&ctx, &server, Some(json("{}")));

    let error = kernel.join(fiber).expect_err("validation must fail");
    assert!(matches!(error, Error::Validation(_)), "got: {}", error.render());
    assert_eq!(kernel.state(fiber), FiberState::Failed);
    let (level, topic, code, message) = kernel.logged[0].clone();
    assert_eq!(level, LogLevel::Error);
    assert_eq!(topic, "fiber");
    assert_eq!(code.as_deref(), Some("validation"));
    assert_eq!(message, format!("server: {}", error.render()));

    kernel.update(fiber, json(r#"{ "port": 8080 }"#)).expect("valid update");
    assert_eq!(kernel.state(fiber), FiberState::Active);
    kernel.stop();
}

#[test]
fn effects_dispose_in_lifo_order() {
    let mut kernel = Kernel::new();
    let ctx = kernel.ctx.clone();
    let order = log();
    let sink = order.clone();
    let effects = kernel.define("effects", vec![], move |kernel, ctx, _config| {
        for tag in ["a", "b", "c"] {
            let sink = sink.clone();
            kernel.effect(ctx, &format!("effect {}", tag), move |_| {
                sink.borrow_mut().push(tag.to_string());
            })?;
        }
        Ok(())
    });
    let fiber = kernel.start(&ctx, &effects, None);
    kernel.join(fiber).unwrap();
    assert_eq!(order.borrow().len(), 0, "nothing disposed yet");
    assert_eq!(fiber.effect_count(&kernel.root), 3);
    assert_eq!(fiber.effect_metas(&kernel.root), ["effect a", "effect b", "effect c"]);

    kernel.dispose(fiber);
    assert_eq!(lines(&order), ["c", "b", "a"], "LIFO");
}

#[test]
fn internal_status_events_track_transitions() {
    let mut kernel = Kernel::new();
    let ctx = kernel.ctx.clone();
    let states = log();
    let sink = states.clone();
    kernel
        .on_global(&ctx, "internal/status", move |_kernel, _ctx, payload, _next| {
            if let Some(state) = member(&payload, "state") {
                sink.borrow_mut().push(state);
            }
            Ok(Json::Null)
        })
        .unwrap();

    let database = database_plugin(&mut kernel);
    let provider = kernel.start(&ctx, &database, Some(json(r#"{ "url": "s" }"#)));
    kernel.join(provider).unwrap();

    let recorded = lines(&states);
    assert!(recorded.contains(&"loading".to_string()), "{:?}", recorded);
    assert!(recorded.contains(&"active".to_string()), "{:?}", recorded);
    kernel.stop();
}

#[test]
fn state_cache_tracks_loading_then_active_then_disposed() {
    let mut kernel = Kernel::new();
    let ctx = kernel.ctx.clone();
    let mut gated = kernel.define("gated", vec![], |_kernel, _ctx, _config| Ok(()));
    gated.held = true;
    kernel.redefine(&gated);
    let fiber = kernel.start(&ctx, &gated, None);
    kernel.pump();
    assert_eq!(kernel.state(fiber), FiberState::Loading);

    kernel.release();
    kernel.join(fiber).expect("converges after release");
    assert_eq!(kernel.state(fiber), FiberState::Active);

    kernel.stop();
    assert_eq!(kernel.state(fiber), FiberState::Disposed);
}

#[test]
fn join_with_timeout_bounds_a_never_finishing_apply() {
    let mut kernel = Kernel::new();
    let ctx = kernel.ctx.clone();
    let mut stuck = kernel.define("stuck", vec![], |_kernel, _ctx, _config| Ok(()));
    stuck.held = true;
    kernel.redefine(&stuck);
    let fiber = kernel.start(&ctx, &stuck, None);
    kernel.pump();
    assert_eq!(kernel.state(fiber), FiberState::Loading);

    assert!(fiber.join_with_timeout(&kernel.root, false).is_none());
    let error = fiber
        .join_with_timeout(&kernel.root, true)
        .expect("the time is up")
        .expect_err("join must time out while apply is parked");
    assert!(error.render().contains("timed out"), "got: {}", error.render());
    assert_eq!(error.render(), "join(\"stuck\") timed out");

    kernel.release();
    kernel.join(fiber).expect("converges after release");
    assert_eq!(kernel.state(fiber), FiberState::Active);
    kernel.stop();
}

#[test]
fn active_bitmask_tracks_lifecycle_locklessly() {
    let mut kernel = Kernel::new();
    let ctx = kernel.ctx.clone();
    let ready = kernel.define("ready", vec![], |_kernel, _ctx, _config| Ok(()));
    let fiber = kernel.start(&ctx, &ready, None);
    let uid = fiber.uid(&kernel.root).expect("allocated");
    assert!(!kernel.bit(uid), "bit must be clear while loading");

    kernel.join(fiber).unwrap();
    assert!(kernel.bit(uid), "bit must be set while Active");
    assert!(kernel.root.fiber_is_active(uid));

    kernel.dispose(fiber);
    assert!(!kernel.bit(uid), "bit must be cleared after dispose (no stale provider liveness)");
    assert!(!kernel.root.fiber_is_active(uid));
}

// ---------------------------------------------------------------------------
// Isolation and interception
// ---------------------------------------------------------------------------

fn cache_plugin(kernel: &mut Kernel) -> Plugin {
    kernel.define("cache", vec![], |kernel, ctx, config| {
        let region = member(config, "region").unwrap();
        kernel.provide(ctx, "cache", &region)?;
        Ok(())
    })
}

#[test]
fn isolated_scopes_host_independent_implementations() {
    let mut kernel = Kernel::new();
    let ctx = kernel.ctx.clone();
    let cache = cache_plugin(&mut kernel);
    let global = kernel.start(&ctx, &cache, Some(json(r#"{ "region": "eu" }"#)));
    kernel.join(global).unwrap();
    assert_eq!(kernel.get(&ctx, "cache").unwrap(), "eu");

    let tenant_a = ctx.isolate(&mut kernel.root, "cache");
    let cache = cache_plugin(&mut kernel);
    let scoped = kernel.start(&tenant_a, &cache, Some(json(r#"{ "region": "us" }"#)));
    kernel.join(scoped).unwrap();
    assert_eq!(kernel.get(&tenant_a, "cache").unwrap(), "us");
    assert_eq!(kernel.get(&ctx, "cache").unwrap(), "eu");
    kernel.stop();
}

#[test]
fn intercept_layers_merge_outermost_first() {
    let mut kernel = Kernel::new();
    let base = kernel.ctx.clone();
    let base = base.intercept(
        &mut kernel.root,
        "llm",
        json(r#"{ "model": "base-model", "temperature": 0.7 }"#),
    );
    let base = base.intercept(&mut kernel.root, "llm", json(r#"{ "temperature": 0.2 }"#));
    let base = base.intercept(&mut kernel.root, "llm", json(r#"{ "api_key": "sk-test" }"#));

    let merged = base.service_config("llm");
    assert_eq!(
        merged,
        json(r#"{ "model": "base-model", "temperature": 0.2, "api_key": "sk-test" }"#)
    );
    assert_eq!(base.service_config("other"), json("{}"));
}

#[test]
fn services_in_other_scopes_are_invisible() {
    let mut kernel = Kernel::new();
    let ctx = kernel.ctx.clone();
    let ctx = ctx.intercept(&mut kernel.root, "cache", json(r#"{ "x": 1 }"#));
    let scoped = ctx.isolate(&mut kernel.root, "cache");
    let cache = cache_plugin(&mut kernel);
    let fiber = kernel.start(&scoped, &cache, Some(json(r#"{ "region": "ap" }"#)));
    kernel.join(fiber).unwrap();

    assert_eq!(kernel.get(&scoped, "cache").unwrap(), "ap");
    assert!(kernel.get(&ctx, "cache").is_none(), "parent must not see child scope");
    kernel.stop();
}

#[test]
fn duplicate_provision_rejected_per_scope() {
    let mut kernel = Kernel::new();
    let ctx = kernel.ctx.clone();
    let cache = cache_plugin(&mut kernel);
    let first = kernel.start(&ctx, &cache, Some(json(r#"{ "region": "a" }"#)));
    kernel.join(first).unwrap();

    let cache = cache_plugin(&mut kernel);
    let second = kernel.start(&ctx, &cache, Some(json(r#"{ "region": "b" }"#)));
    let error = kernel.join(second).expect_err("same scope + same name must fail");
    assert_eq!(error.render(), "service \"cache\" has been registered in this scope");
    assert_eq!(error.code(), Some(CordisCode::DuplicateService.as_str()));

    let iso = ctx.isolate(&mut kernel.root, "cache");
    let cache = cache_plugin(&mut kernel);
    let third = kernel.start(&iso, &cache, Some(json(r#"{ "region": "b" }"#)));
    kernel.join(third).unwrap();
    assert_eq!(kernel.state(third), FiberState::Active);
    kernel.stop();
}

// ---------------------------------------------------------------------------
// Computed services
// ---------------------------------------------------------------------------

fn provided_database(kernel: &mut Kernel) -> Plugin {
    kernel.define("database", vec![], |kernel, ctx, _config| {
        kernel.provide(ctx, "database", "provided")?;
        Ok(())
    })
}

fn summary_plugin(kernel: &mut Kernel, reads: Rc<RefCell<usize>>) -> Plugin {
    kernel.define("summary", vec![], move |kernel, ctx, _config| {
        let counter = reads.clone();
        kernel.accessor(ctx, "summary", move |kernel, ctx| {
            *counter.borrow_mut() += 1;
            let url = kernel.get(ctx, "database")?;
            Some(url.to_uppercase())
        })?;
        Ok(())
    })
}

#[test]
fn accessor_computes_per_read_from_live_sources() {
    let mut kernel = Kernel::new();
    let ctx = kernel.ctx.clone();
    let reads = Rc::new(RefCell::new(0));
    let database = provided_database(&mut kernel);
    let db = kernel.start(&ctx, &database, None);
    kernel.join(db).unwrap();
    let summary = summary_plugin(&mut kernel, reads.clone());
    let summary = kernel.start(&ctx, &summary, None);
    kernel.join(summary).unwrap();

    assert_eq!(kernel.get(&ctx, "summary").unwrap(), "PROVIDED");
    let after_first = *reads.borrow();
    assert_eq!(after_first, 1);

    assert_eq!(kernel.get(&ctx, "summary").unwrap(), "PROVIDED");
    assert_eq!(*reads.borrow(), after_first + 1);

    kernel.dispose(summary);
    assert!(kernel.get(&ctx, "summary").is_none());
    kernel.stop();
}

#[test]
fn accessor_unavailable_when_source_missing() {
    let mut kernel = Kernel::new();
    let ctx = kernel.ctx.clone();
    let derived = kernel.define("derived", vec![], |kernel, ctx, _config| {
        kernel.accessor(ctx, "summary", |kernel, ctx| {
            let url = kernel.get(ctx, "database")?;
            Some(format!("view of {}", url))
        })?;
        Ok(())
    });
    let fiber = kernel.start(&ctx, &derived, None);
    kernel.join(fiber).unwrap();
    assert_eq!(kernel.state(fiber), FiberState::Active);
    assert!(kernel.get(&ctx, "summary").is_none());
    assert_eq!(
        kernel.require(&ctx, "summary").unwrap_err().render(),
        "cannot get property \"summary\" without inject"
    );

    let database = provided_database(&mut kernel);
    let db = kernel.start(&ctx, &database, None);
    kernel.join(db).unwrap();
    assert_eq!(kernel.get(&ctx, "summary").unwrap(), "view of provided");
    kernel.stop();
}

#[test]
fn duplicate_accessor_rejected_like_provide() {
    let mut kernel = Kernel::new();
    let ctx = kernel.ctx.clone();
    let make = |kernel: &mut Kernel| {
        kernel.define("derived", vec![], |kernel, ctx, _config| {
            kernel.accessor(ctx, "computed", |_kernel, _ctx| Some("x".to_string()))?;
            Ok(())
        })
    };
    let plugin = make(&mut kernel);
    let first = kernel.start(&ctx, &plugin, None);
    kernel.join(first).unwrap();

    let plugin = make(&mut kernel);
    let second = kernel.start(&ctx, &plugin, None);
    kernel.join(second).expect_err("same name in same scope must collide");

    let iso = ctx.isolate(&mut kernel.root, "computed");
    let plugin = make(&mut kernel);
    let third = kernel.start(&iso, &plugin, None);
    kernel.join(third).unwrap();
    kernel.stop();
}

#[test]
fn scope_identity_and_effect_introspection() {
    let mut kernel = Kernel::new();
    let ctx = kernel.ctx.clone();
    assert!(ctx.is(&ctx));
    assert!(ctx.is(&ctx.extend()));
    let scoped = ctx.isolate(&mut kernel.root, "cache");
    assert!(!ctx.is(&scoped), "isolate creates a distinct scope");
    assert!(!scoped.is(&ctx));

    let database = provided_database(&mut kernel);
    let fiber = kernel.start(&ctx, &database, None);
    kernel.join(fiber).unwrap();
    assert_eq!(kernel.state(fiber), FiberState::Active);

    let metas = fiber.effect_metas(&kernel.root);
    assert!(metas.iter().any(|m| m.contains("provide")), "effects: {:?}", metas);
    assert_eq!(metas, ["ctx.provide(database)"]);
    kernel.stop();
}

#[test]
fn accessor_reads_are_stable_under_high_frequency() {
    let mut kernel = Kernel::new();
    let ctx = kernel.ctx.clone();
    let reads = Rc::new(RefCell::new(0));
    let database = provided_database(&mut kernel);
    let db = kernel.start(&ctx, &database, None);
    let summary = summary_plugin(&mut kernel, reads.clone());
    let summary = kernel.start(&ctx, &summary, None);
    kernel.join(db).unwrap();
    kernel.join(summary).unwrap();

    for _ in 0..1000usize {
        let value = kernel.get(&ctx, "summary").expect("accessor live");
        assert_eq!(value, "PROVIDED");
    }
    assert_eq!(*reads.borrow(), 1000, "every read recomputes");
    kernel.stop();
}

// ---------------------------------------------------------------------------
// Events
// ---------------------------------------------------------------------------

#[test]
fn parallel_aggregates_listener_errors() {
    let mut kernel = Kernel::new();
    let ctx = kernel.ctx.clone();
    let hits = log();
    for name in ["a", "b"] {
        let hits = hits.clone();
        kernel
            .on(&ctx, "ping", move |_kernel, _ctx, _payload, _next| {
                hits.borrow_mut().push(name.to_string());
                if name == "b" {
                    Err(Error::msg("boom"))
                } else {
                    Ok(Json::Null)
                }
            })
            .unwrap();
    }

    let error = kernel.parallel(&ctx, "ping", Json::Null).expect_err("must aggregate");
    assert!(matches!(error, Error::Aggregate(_)), "{}", error.render());
    assert_eq!(lines(&hits), ["a", "b"]);
}

#[test]
fn serial_stops_at_first_bail() {
    let mut kernel = Kernel::new();
    let ctx = kernel.ctx.clone();
    let hits = log();
    for (name, bail) in [("first", true), ("second", false)] {
        let hits = hits.clone();
        kernel
            .on(&ctx, "gate", move |_kernel, _ctx, payload, _next| {
                hits.borrow_mut().push(name.to_string());
                if bail {
                    return Ok(json(&format!(r#"{{ "bailed_by": "{}" }}"#, name)));
                }
                Ok(with_member(payload, "touched", &format!("{:?}", name)))
            })
            .unwrap();
    }

    let out = kernel.serial(&ctx, "gate", json("{}")).unwrap();
    assert_eq!(out, json(r#"{ "bailed_by": "first" }"#));
    assert_eq!(lines(&hits), ["first"], "second must not run");
}

#[test]
fn any_object_result_bails_serial() {
    let mut kernel = Kernel::new();
    let ctx = kernel.ctx.clone();
    kernel
        .on(&ctx, "flow", |_kernel, _ctx, payload, _next| Ok(with_member(payload, "one", "true")))
        .unwrap();

    let out = kernel.serial(&ctx, "flow", json(r#"{ "seed": 1 }"#)).unwrap();
    assert_eq!(out, json(r#"{ "seed": 1, "one": true }"#));
}

#[test]
fn null_listeners_let_serial_continue() {
    let mut kernel = Kernel::new();
    let ctx = kernel.ctx.clone();
    kernel.on(&ctx, "flow", |_kernel, _ctx, _payload, _next| Ok(json("null"))).unwrap();
    kernel.on(&ctx, "flow", |_kernel, _ctx, _payload, _next| Ok(json("false"))).unwrap();

    let out = kernel.serial(&ctx, "flow", json(r#"{ "reached": true }"#)).unwrap();
    assert_eq!(out, json(r#"{ "reached": true }"#));
}

#[test]
fn waterfall_composes_and_can_veto() {
    let mut kernel = Kernel::new();
    let ctx = kernel.ctx.clone();
    kernel
        .on_global(&ctx, "config", |kernel, _ctx, payload, next| {
            let payload = with_member(payload, "prefix", "\"global\"");
            let call = next.unwrap().run(payload);
            kernel.next(call)
        })
        .unwrap();
    kernel
        .on(&ctx, "config", |kernel, _ctx, payload, next| {
            let payload = with_member(payload, "suffix", "\"local\"");
            let call = next.unwrap().run(payload);
            kernel.next(call)
        })
        .unwrap();

    let final_value = kernel
        .waterfall(&ctx, "config", json("{}"), |_kernel, payload| {
            Ok(with_member(payload, "builtin", "true"))
        })
        .unwrap();
    assert_eq!(
        final_value,
        json(r#"{ "prefix": "global", "suffix": "local", "builtin": true }"#)
    );
}

#[test]
fn waterfall_veto_blocks_builtin() {
    let mut kernel = Kernel::new();
    let ctx = kernel.ctx.clone();
    let listener_ran = Rc::new(RefCell::new(false));
    let flag = listener_ran.clone();
    kernel
        .on(&ctx, "auth", move |_kernel, _ctx, _payload, _next| {
            *flag.borrow_mut() = true;
            Ok(json(r#"{ "allowed": false }"#))
        })
        .unwrap();

    let out = kernel
        .waterfall(&ctx, "auth", json(r#"{ "user": "root" }"#), |_kernel, _payload| {
            Ok(json(r#"{ "allowed": true }"#))
        })
        .unwrap();
    assert_eq!(out, json(r#"{ "allowed": false }"#));
    assert!(*listener_ran.borrow(), "listener ran");
}

#[test]
fn once_fires_exactly_once() {
    let mut kernel = Kernel::new();
    let ctx = kernel.ctx.clone();
    let count = Rc::new(RefCell::new(0));
    let counter = count.clone();
    let gate = Rc::new(RefCell::new(OnceGate::new()));
    let entry = gate.clone();
    let callback = kernel.listener(move |kernel, _ctx, _payload, _next| {
        if entry.borrow_mut().enter(&mut kernel.root) {
            *counter.borrow_mut() += 1;
        }
        Ok(Json::Null)
    });
    let guard =
        ctx.once(&mut kernel.root, "boot", callback, &mut gate.borrow_mut()).unwrap();
    assert_eq!(ctx.listeners(&kernel.root, "boot").len(), 1);

    kernel.emit(&ctx, "boot", Json::Null);
    let _ = kernel.serial(&ctx, "boot", Json::Null);
    assert_eq!(*count.borrow(), 1);
    // The listener has disposed of itself.
    assert!(ctx.listeners(&kernel.root, "boot").is_empty());
    assert!(!guard.is_live(&kernel.root));
    assert!(!gate.borrow_mut().enter(&mut kernel.root));
}

// ---------------------------------------------------------------------------
// Timers
// ---------------------------------------------------------------------------

fn timer_plugin(kernel: &mut Kernel) -> Plugin {
    kernel.define("timer", vec![], |kernel, ctx, _config| {
        kernel.provide(ctx, "timer", "timer service")?;
        Ok(())
    })
}

fn started_timer(kernel: &mut Kernel) -> FiberHandle {
    let ctx = kernel.ctx.clone();
    let timer = timer_plugin(kernel);
    let fiber = kernel.start(&ctx, &timer, None);
    kernel.join(fiber).unwrap();
    fiber
}

#[test]
fn service_is_visible_without_inject() {
    let mut kernel = Kernel::new();
    let ctx = kernel.ctx.clone();
    started_timer(&mut kernel);
    assert!(kernel.get(&ctx, "timer").is_some());
    kernel.stop();
}

#[test]
fn injected_fiber_uses_mixin_timeout() {
    let mut kernel = Kernel::new();
    started_timer(&mut kernel);
    let ran = Rc::new(RefCell::new(false));
    let flag = ran.clone();
    let fiber = kernel.inject(vec![Injection::new("timer")], move |kernel, ctx, _config| {
        let guard = ctx.timeout(&mut kernel.root, 0)?;
        assert!(guard.is_live(&kernel.root));
        let mut future = TimeoutFuture::new();
        assert!(future.poll(TimerSignal::Quiet).is_none());
        future.poll(TimerSignal::Sent(Ok(()))).expect("fired")?;
        *flag.borrow_mut() = true;
        Ok(())
    });
    kernel.tasks.push(Rc::new(|_| {}));
    kernel.join(fiber).unwrap();
    assert!(*ran.borrow());
    assert_eq!(fiber.effect_metas(&kernel.root), ["ctx.timeout()"]);
    kernel.stop();
}

#[test]
fn interval_ticks_and_stops_on_dispose() {
    let mut kernel = Kernel::new();
    started_timer(&mut kernel);
    let ticks = Rc::new(RefCell::new(0));
    let counter = ticks.clone();
    let cancelled = Rc::new(RefCell::new(false));
    let flag = cancelled.clone();
    kernel.tasks.push(Rc::new(move |_| *flag.borrow_mut() = true));
    let fiber = kernel.inject(vec!["timer"], move |kernel, ctx, _config| {
        ctx.interval(&mut kernel.root, 0)?;
        let mut stream = IntervalStream::new();
        for _ in 0..3 {
            stream.next(Some(Ok(()))).expect("tick")?;
            *counter.borrow_mut() += 1;
        }
        Ok(())
    });
    kernel.join(fiber).unwrap();
    assert_eq!(*ticks.borrow(), 3);
    assert_eq!(fiber.effect_metas(&kernel.root), ["ctx.interval()"]);

    kernel.dispose(fiber);
    assert!(*cancelled.borrow());
}

#[test]
fn pending_timeout_resolves_as_disposed_when_owner_unloads() {
    let mut kernel = Kernel::new();
    started_timer(&mut kernel);
    let future = Rc::new(RefCell::new(TimeoutFuture::new()));
    let outcome: Rc<RefCell<Option<Result<(), Error>>>> = Rc::new(RefCell::new(None));
    let waiting = future.clone();
    let recorded = outcome.clone();
    kernel.tasks.push(Rc::new(move |_| {
        *recorded.borrow_mut() = waiting.borrow_mut().poll(TimerSignal::Closed);
    }));
    let fiber = kernel.inject(vec!["timer"], move |kernel, ctx, _config| {
        ctx.timeout(&mut kernel.root, 0)?;
        Ok(())
    });
    kernel.join(fiber).unwrap();
    kernel.dispose(fiber);

    let result = outcome.borrow_mut().take().expect("waiter must have finished");
    assert!(result.is_err());
    assert_eq!(result.unwrap_err().render(), DISPOSED_MESSAGE);
    kernel.stop();
}

#[test]
fn timers_need_the_timer_service() {
    let mut kernel = Kernel::new();
    let ctx = kernel.ctx.clone();
    let text = "cannot get property \"timer\" without inject";
    assert_eq!(ctx.timeout(&mut kernel.root, 0).unwrap_err().render(), text);
    assert_eq!(ctx.interval(&mut kernel.root, 0).unwrap_err().render(), text);
    assert!(ctx.timer(&kernel.root).is_err());

    let fiber = started_timer(&mut kernel);
    assert!(ctx.timer(&kernel.root).is_ok());
    kernel.tasks.push(Rc::new(|_| {}));
    let service = TimerService { ctx: kernel.root.fibers[fiber.0].ctx.clone() };
    service.timeout(&mut kernel.root, 0).unwrap();
    service.interval(&mut kernel.root, 0).unwrap();
    service.timeout_in(&ctx, &mut kernel.root, 0).unwrap();
    service.interval_in(&ctx, &mut kernel.root, 0).unwrap();
    assert_eq!(
        fiber.effect_metas(&kernel.root),
        ["ctx.provide(timer)", "ctx.timeout()", "ctx.interval()"]
    );
    assert_eq!(FiberHandle(0).effect_metas(&kernel.root), ["ctx.timeout()", "ctx.interval()"]);
    kernel.stop();
    assert_eq!(
        service.timeout(&mut kernel.root, 0).unwrap_err().render(),
        CordisCode::InactiveEffect.as_str()
    );
}

#[test]
fn closed_interval_yields_one_error_and_then_nothing() {
    let mut stream = IntervalStream::new();
    assert!(stream.next(Some(Ok(()))).unwrap().is_ok());
    let last = stream.next(None).unwrap().unwrap_err();
    assert_eq!(last.render(), DISPOSED_MESSAGE);
    assert!(stream.next(None).is_none());
    assert!(stream.next(Some(Ok(()))).is_none());

    let mut future = TimeoutFuture::new();
    assert!(future.poll(TimerSignal::Sent(Ok(()))).unwrap().is_ok());
    assert_eq!(future.poll(TimerSignal::Quiet).unwrap().unwrap_err().render(), DISPOSED_MESSAGE);
}

// ---------------------------------------------------------------------------
// Dependents follow their services
// ---------------------------------------------------------------------------

fn service_plugin(kernel: &mut Kernel, name: &'static str, value: &'static str) -> Plugin {
    kernel.define(name, vec![], move |kernel, ctx, _config| {
        kernel.provide(ctx, name, value)?;
        Ok(())
    })
}

#[test]
fn dependent_on_two_services_reloads_when_one_of_them_returns() {
    let mut kernel = Kernel::new();
    let ctx = kernel.ctx.clone();
    let seen = log();
    let sink = seen.clone();
    let consumer = kernel.inject(vec!["left", "right"], move |kernel, ctx, _config| {
        let left = kernel.require(ctx, "left")?;
        let right = kernel.require(ctx, "right")?;
        sink.borrow_mut().push(format!("{}+{}", left, right));
        Ok(())
    });
    let left = service_plugin(&mut kernel, "left", "l1");
    let left = kernel.start(&ctx, &left, None);
    kernel.join(left).unwrap();
    kernel.join(consumer).unwrap();
    assert_eq!(kernel.state(consumer), FiberState::Pending);
    let right = service_plugin(&mut kernel, "right", "r1");
    let right = kernel.start(&ctx, &right, None);
    kernel.join(right).unwrap();
    kernel.join(consumer).unwrap();
    assert_eq!(kernel.state(consumer), FiberState::Active);
    assert_eq!(kernel.root.fibers[consumer.0].loaded, "::2:3");

    kernel.dispose(right);
    assert_eq!(kernel.state(consumer), FiberState::Pending);
    let right = service_plugin(&mut kernel, "right", "r2");
    let right = kernel.start(&ctx, &right, None);
    kernel.join(right).unwrap();
    kernel.join(consumer).unwrap();
    assert_eq!(kernel.state(consumer), FiberState::Active);
    assert_eq!(lines(&seen), ["l1+r1", "l1+r2"]);

    // A restarted dependent still follows its services.
    kernel.restart(consumer).unwrap();
    assert_eq!(lines(&seen), ["l1+r1", "l1+r2", "l1+r2"]);
    kernel.dispose(left);
    assert_eq!(kernel.state(consumer), FiberState::Pending);
    kernel.stop();
}

#[test]
fn dependents_reload_when_their_provider_is_hot_updated() {
    let mut kernel = Kernel::new();
    let ctx = kernel.ctx.clone();
    let seen = log();
    let api = consumer_plugin(&mut kernel, seen.clone());
    let consumer = kernel.start(&ctx, &api, None);
    let database = database_plugin(&mut kernel);
    let provider = kernel.start(&ctx, &database, Some(json(r#"{ "url": "old" }"#)));
    kernel.join(consumer).unwrap();
    kernel.update(provider, json(r#"{ "url": "new" }"#)).unwrap();
    kernel.join(consumer).unwrap();
    assert_eq!(kernel.state(consumer), FiberState::Active);
    assert_eq!(lines(&seen), ["api started with old", "api started with new"]);
    kernel.stop();
}

#[test]
fn availability_predicate_has_a_say() {
    let mut kernel = Kernel::new();
    let ctx = kernel.ctx.clone();
    let open = Rc::new(RefCell::new(false));
    let flag = open.clone();
    let guarded = kernel.define("guarded", vec![], move |kernel, ctx, _config| {
        let flag = flag.clone();
        kernel.provide_with_check(ctx, "guarded", "value", move |_kernel, _ctx| *flag.borrow())?;
        Ok(())
    });
    let provider = kernel.start(&ctx, &guarded, None);
    kernel.join(provider).unwrap();
    let consumer = kernel.inject(vec!["guarded".to_string()], |_kernel, _ctx, _config| Ok(()));
    kernel.join(consumer).unwrap();
    assert_eq!(kernel.state(consumer), FiberState::Pending);
    // The predicate concerns dependents only.
    assert_eq!(kernel.get(&ctx, "guarded").unwrap(), "value");

    *open.borrow_mut() = true;
    let notice = kernel.root.notice(&ctx, "guarded");
    kernel.tell(notice);
    kernel.join(consumer).unwrap();
    assert_eq!(kernel.state(consumer), FiberState::Active);

    *open.borrow_mut() = false;
    let notice = kernel.root.notice(&ctx, "guarded");
    kernel.tell(notice);
    kernel.join(consumer).unwrap();
    assert_eq!(kernel.state(consumer), FiberState::Pending);
    kernel.stop();
}

#[test]
fn change_in_another_scope_is_not_heard() {
    let mut kernel = Kernel::new();
    let ctx = kernel.ctx.clone();
    let inside = ctx.isolate_with_label(&mut kernel.root, "cache", 7);
    let joined = ctx.isolate_with_label(&mut kernel.root, "cache", 7);
    let heard = log();
    for (who, place) in [("outside", &ctx), ("inside", &inside)] {
        let sink = heard.clone();
        kernel
            .on(place, "internal/service", move |_kernel, _ctx, payload, _next| {
                sink.borrow_mut().push(format!("{} {}", who, member(&payload, "service").unwrap()));
                Ok(Json::Null)
            })
            .unwrap();
    }
    let sink = heard.clone();
    kernel
        .on_global(&ctx, "internal/service", move |_kernel, _ctx, _payload, _next| {
            sink.borrow_mut().push("global".to_string());
            Ok(Json::Null)
        })
        .unwrap();
    let outside = kernel.inject(vec!["cache"], |_kernel, _ctx, _config| Ok(()));
    kernel.provide(&joined, "cache", "x").unwrap();
    kernel.pump();
    assert_eq!(lines(&heard), ["global", "inside cache"]);
    assert_eq!(kernel.state(outside), FiberState::Pending);
    // One label, one scope.
    assert_eq!(kernel.get(&inside, "cache").unwrap(), "x");
    assert!(kernel.get(&ctx, "cache").is_none());
}

#[test]
fn fresh_labels_do_not_meet() {
    let mut kernel = Kernel::new();
    let ctx = kernel.ctx.clone();
    let a = ctx.isolate(&mut kernel.root, "cache");
    let b = ctx.isolate(&mut kernel.root, "cache");
    assert_eq!(ctx.effective_label("cache"), 0);
    assert_eq!(a.effective_label("cache"), 2);
    assert_eq!(b.effective_label("cache"), 3);
    assert_eq!(a.effective_label("database"), 0);
    let nested = a.isolate_with_label(&mut kernel.root, "cache", 9);
    assert_eq!(nested.effective_label("cache"), 9);
    assert!(!a.is(&b));
}

#[test]
fn withdrawal_undoes_providing() {
    let mut kernel = Kernel::new();
    let ctx = kernel.ctx.clone();
    let consumer = kernel.inject(vec!["config"], |_kernel, _ctx, _config| Ok(()));
    let guard = kernel.provide(&ctx, "config", "one").unwrap();
    kernel.join(consumer).unwrap();
    assert_eq!(kernel.state(consumer), FiberState::Active);
    assert!(guard.is_live(&kernel.root));

    kernel.dispose_effect(&guard);
    assert!(!guard.is_live(&kernel.root));
    assert!(kernel.get(&ctx, "config").is_none());
    assert_eq!(kernel.state(consumer), FiberState::Pending);
    // Disposing is single-shot.
    assert!(guard.dispose(&mut kernel.root).is_none());

    kernel.provide(&ctx, "config", "two").unwrap();
    kernel.join(consumer).unwrap();
    assert_eq!(kernel.state(consumer), FiberState::Active);
    assert_eq!(kernel.get(&ctx, "config").unwrap(), "two");
}

#[test]
fn set_overwrites_own_services_only() {
    let mut kernel = Kernel::new();
    let ctx = kernel.ctx.clone();
    let error = kernel.set(&ctx, "config", "x").unwrap_err();
    assert_eq!(error.render(), "cannot set property \"config\" without provide");
    assert!(error.code().is_none());

    kernel.provide(&ctx, "config", "one").unwrap();
    let kept = log();
    let sink = kept.clone();
    let consumer = kernel.inject(vec!["config"], move |kernel, ctx, _config| {
        let error = kernel.set(ctx, "config", "mine").unwrap_err();
        assert_eq!(error.code(), Some(CordisCode::ForeignService.as_str()));
        sink.borrow_mut().push(kernel.get(ctx, "config").unwrap());
        Ok(())
    });
    kernel.join(consumer).unwrap();
    kernel.set(&ctx, "config", "two").unwrap();
    assert_eq!(kernel.get(&ctx, "config").unwrap(), "two");
    // The dependent reads from its snapshot.
    let inner = kernel.root.fibers[consumer.0].ctx.clone();
    assert_eq!(kernel.get(&inner, "config").unwrap(), "one");
    assert_eq!(lines(&kept), ["one"]);

    kernel.dispose(consumer);
    let error = kernel.set(&inner, "config", "late").unwrap_err();
    assert_eq!(error.code(), Some(CordisCode::InactiveEffect.as_str()));
}

#[test]
fn effects_need_a_running_fiber() {
    let mut kernel = Kernel::new();
    let ctx = kernel.ctx.clone();
    let unbound = Context { fiber: None, ..ctx.clone() };
    assert_eq!(
        kernel.provide(&unbound, "x", "y").unwrap_err().render(),
        "cannot provide on this context: no active fiber is bound"
    );
    assert_eq!(
        kernel.accessor(&unbound, "x", |_, _| None).unwrap_err().render(),
        "cannot accessor on this context: no active fiber is bound"
    );
    assert_eq!(
        kernel.on(&unbound, "x", |_, _, p, _| Ok(p)).unwrap_err().render(),
        "cannot effect on this context: no active fiber is bound"
    );
    assert_eq!(
        kernel.set(&unbound, "x", "y").unwrap_err().code(),
        Some(CordisCode::InactiveEffect.as_str())
    );

    let idle = kernel.define("idle", vec![], |_kernel, _ctx, _config| Ok(()));
    let fiber = kernel.start(&ctx, &idle, None);
    kernel.join(fiber).unwrap();
    let inner = kernel.root.fibers[fiber.0].ctx.clone();
    kernel.dispose(fiber);
    for error in [
        kernel.effect(&inner, "late", |_| {}).unwrap_err(),
        kernel.provide(&inner, "late", "x").unwrap_err(),
        kernel.on(&inner, "late", |_, _, p, _| Ok(p)).unwrap_err(),
        fiber.restart(&mut kernel.root).unwrap_err(),
        fiber.assert_active(&kernel.root).unwrap_err(),
        fiber.apply_update(&mut kernel.root, Json::Null).unwrap_err(),
        fiber.update(&kernel.root, Json::Null, 0).err().expect("refused"),
    ] {
        assert_eq!(error.code(), Some(CordisCode::InactiveEffect.as_str()));
    }
    // A refused effect leaves no residue.
    assert!(kernel.get(&ctx, "late").is_none());
    assert!(ctx.listeners(&kernel.root, "late").is_empty());
}

#[test]
fn refused_provision_while_unloading_leaves_no_residue() {
    let mut kernel = Kernel::new();
    let ctx = kernel.ctx.clone();
    let refused = Rc::new(RefCell::new(None));
    let slot = refused.clone();
    let dependent = kernel.inject(vec!["config"], move |kernel, ctx, _config| {
        let slot = slot.clone();
        let ctx2 = ctx.clone();
        kernel.effect(ctx, "last words", move |kernel| {
            *slot.borrow_mut() = kernel.provide(&ctx2, "late", "x").err();
        })?;
        Ok(())
    });
    let guard = kernel.provide(&ctx, "config", "one").unwrap();
    kernel.join(dependent).unwrap();
    kernel.dispose_effect(&guard);
    assert_eq!(kernel.state(dependent), FiberState::Pending);
    let error = refused.borrow_mut().take().expect("refused");
    assert_eq!(error.code(), Some(CordisCode::InactiveEffect.as_str()));
    assert!(kernel.root.get_impl(&ctx, "late", false).is_none());
}

#[test]
fn failed_body_is_rolled_back() {
    let mut kernel = Kernel::new();
    let ctx = kernel.ctx.clone();
    let undone = log();
    let sink = undone.clone();
    let faulty = kernel.define("faulty", vec![], move |kernel, ctx, _config| {
        kernel.provide(ctx, "half", "done")?;
        let sink = sink.clone();
        kernel.effect(ctx, "cleanup", move |_| sink.borrow_mut().push("undone".to_string()))?;
        Err(Error::msg("boom"))
    });
    let fiber = kernel.start(&ctx, &faulty, None);
    assert_eq!(kernel.join(fiber).unwrap_err().render(), "boom");
    assert_eq!(kernel.state(fiber), FiberState::Failed);
    assert_eq!(lines(&undone), ["undone"]);
    assert_eq!(fiber.effect_count(&kernel.root), 0);
    assert!(kernel.root.get_impl(&ctx, "half", false).is_none());
    let (level, topic, code, message) = kernel.logged[0].clone();
    assert_eq!((level, topic.as_str()), (LogLevel::Error, "fiber"));
    assert_eq!((code, message.as_str()), (None, "faulty: boom"));
    assert!(kernel.settled.contains(&fiber.0));
}

#[test]
fn update_hook_can_veto_the_restart() {
    let mut kernel = Kernel::new();
    let ctx = kernel.ctx.clone();
    let runs = Rc::new(RefCell::new(0));
    let counter = runs.clone();
    let plugin = kernel.define("plugin", vec![], move |_kernel, _ctx, _config| {
        *counter.borrow_mut() += 1;
        Ok(())
    });
    let fiber = kernel.start(&ctx, &plugin, Some(json("1")));
    kernel.join(fiber).unwrap();
    let veto = kernel.on(&ctx, "internal/update", |_, _, _, _| Ok(Json::Null)).unwrap();
    let config = kernel.update(fiber, json("2")).unwrap();
    assert_eq!(config, json("1"));
    assert_eq!(fiber.raw_config(&kernel.root), json("1"));
    assert_eq!(*runs.borrow(), 1);

    kernel.dispose_effect(&veto);
    kernel
        .on(&ctx, "internal/update", |kernel, _ctx, _payload, next| {
            let call = next.unwrap().run(json("3"));
            kernel.next(call)
        })
        .unwrap();
    let config = kernel.update(fiber, json("2")).unwrap();
    assert_eq!(config, json("3"));
    assert_eq!(fiber.raw_config(&kernel.root), json("3"));
    assert_eq!(*runs.borrow(), 2);
}

#[test]
fn injection_config_is_an_intercept_layer() {
    let mut kernel = Kernel::new();
    let ctx = kernel.ctx.clone();
    let ctx = ctx.intercept(&mut kernel.root, "llm", json(r#"{ "model": "m", "depth": 1 }"#));
    let inject = vec![
        Injection::with_config("llm", json(r#"{ "depth": 2 }"#)),
        Injection::new("cache"),
    ];
    let started = ctx.plugin(&mut kernel.root, 5, "dressed", inject, None);
    let inner = kernel.root.fibers[started.handle.0].ctx.clone();
    assert_eq!(inner.service_config("llm"), json(r#"{ "model": "m", "depth": 2 }"#));
    assert_eq!(inner.service_config("cache"), json("{}"));
    assert_eq!(ctx.service_config("llm"), json(r#"{ "model": "m", "depth": 1 }"#));
    assert!(!inner.is(&ctx));

    let plain = ctx.plugin(&mut kernel.root, 6, "plain", vec![Injection::new("llm")], None);
    assert!(kernel.root.fibers[plain.handle.0].ctx.is(&ctx));
}

#[test]
fn config_hooks_transform_the_config() {
    let mut kernel = Kernel::new();
    let ctx = kernel.ctx.clone();
    kernel
        .on(&ctx, "internal/config", |kernel, _ctx, payload, next| {
            let call = next.unwrap().run(with_member(payload, "extra", "true"));
            kernel.next(call)
        })
        .unwrap();
    let plugin = kernel.define("plugin", vec![], |_kernel, _ctx, _config| Ok(()));
    let fiber = kernel.start(&ctx, &plugin, Some(json("{}")));
    kernel.join(fiber).unwrap();
    assert_eq!(fiber.config(&kernel.root), json(r#"{ "extra": true }"#));
}

// ---------------------------------------------------------------------------
// The registry
// ---------------------------------------------------------------------------

#[test]
fn one_plugin_has_one_runtime() {
    let mut kernel = Kernel::new();
    let ctx = kernel.ctx.clone();
    let plugin = kernel.define("twice", vec![], |_kernel, _ctx, _config| Ok(()));
    assert_eq!((ctx.registry_size(&kernel.root), ctx.live_fibers(&kernel.root)), (0, 1));
    let a = kernel.start(&ctx, &plugin, None);
    let b = kernel.start(&ctx, &plugin, None);
    kernel.pump();
    assert_eq!((a.uid(&kernel.root), b.uid(&kernel.root)), (Some(1), Some(2)));
    assert_eq!(b.name(&kernel.root), "twice");
    assert_eq!((ctx.registry_size(&kernel.root), ctx.live_fibers(&kernel.root)), (1, 3));
    kernel.dispose(a);
    assert_eq!(a.uid(&kernel.root), None);
    assert_eq!((ctx.registry_size(&kernel.root), ctx.live_fibers(&kernel.root)), (1, 2));
    // Disposing twice changes nothing.
    assert!(!a.dispose(&mut kernel.root));
    kernel.dispose(b);
    assert_eq!((ctx.registry_size(&kernel.root), ctx.live_fibers(&kernel.root)), (0, 1));
    let c = kernel.start(&ctx, &plugin, None);
    assert_eq!(c.uid(&kernel.root), Some(3));
    assert_eq!(ctx.registry_size(&kernel.root), 1);
}

#[test]
fn runtime_keeps_its_first_name() {
    let mut kernel = Kernel::new();
    let ctx = kernel.ctx.clone();
    let first = ctx.plugin(&mut kernel.root, 9, "first", vec![], None);
    let second = ctx.plugin(&mut kernel.root, 9, "second", vec![], None);
    assert_eq!(first.handle.name(&kernel.root), "first");
    assert_eq!(second.handle.name(&kernel.root), "first");
    assert_eq!(FiberHandle(0).name(&kernel.root), "root");
}

#[test]
fn stop_disposes_newest_first() {
    let mut kernel = Kernel::new();
    let ctx = kernel.ctx.clone();
    let order = log();
    let mut fibers = Vec::new();
    for name in ["one", "two", "three"] {
        let sink = order.clone();
        let plugin = kernel.define(name, vec![], move |kernel, ctx, _config| {
            let sink = sink.clone();
            kernel.effect(ctx, name, move |_| sink.borrow_mut().push(name.to_string()))?;
            Ok(())
        });
        fibers.push(kernel.start(&ctx, &plugin, None));
    }
    kernel.pump();
    kernel.dispose(fibers[1]);
    assert_eq!(ctx.stop(&kernel.root), [3, 1]);
    kernel.stop();
    assert_eq!(lines(&order), ["two", "three", "one"]);
    assert_eq!(ctx.registry_size(&kernel.root), 0);
}

#[test]
fn plugin_events_tell_of_creation_and_disposal() {
    let mut kernel = Kernel::new();
    let ctx = kernel.ctx.clone();
    let heard: Rc<RefCell<Vec<Json>>> = Rc::new(RefCell::new(Vec::new()));
    let sink = heard.clone();
    kernel
        .on(&ctx, "internal/plugin", move |_kernel, _ctx, payload, _next| {
            sink.borrow_mut().push(payload);
            Ok(Json::Null)
        })
        .unwrap();
    let statuses: Rc<RefCell<Vec<Json>>> = Rc::new(RefCell::new(Vec::new()));
    let sink = statuses.clone();
    kernel
        .on(&ctx, "internal/status", move |_kernel, _ctx, payload, _next| {
            sink.borrow_mut().push(payload);
            Ok(Json::Null)
        })
        .unwrap();
    let plugin = kernel.define("watched", vec!["a", "b"], |_kernel, _ctx, _config| Ok(()));
    let fiber = kernel.start(&ctx, &plugin, None);
    kernel.pump();
    kernel.dispose(fiber);
    assert_eq!(
        *heard.borrow(),
        [
            json(r#"{ "event": "created", "fiber": "watched", "uid": 1, "inject": ["a", "b"] }"#),
            json(r#"{ "event": "disposed", "fiber": "watched", "uid": 1 }"#),
        ]
    );
    assert_eq!(
        statuses.borrow().last().unwrap(),
        &json(r#"{ "fiber": "watched", "uid": null, "state": "disposed" }"#)
    );
}

#[test]
fn activity_is_known_beyond_the_bitmask() {
    let mut kernel = Kernel::new();
    let ctx = kernel.ctx.clone();
    let plugin = kernel.define("many", vec![], |_kernel, _ctx, _config| Ok(()));
    let mut fibers = Vec::new();
    for _ in 0..70 {
        fibers.push(kernel.start(&ctx, &plugin, None));
    }
    assert!(!kernel.root.fiber_is_active(70));
    kernel.pump();
    for uid in 0..71 {
        assert!(kernel.root.fiber_is_active(uid));
    }
    assert!(!kernel.root.fiber_is_active(71));
    kernel.dispose(fibers[69]);
    kernel.dispose(fibers[62]);
    assert!(!kernel.root.fiber_is_active(70));
    assert!(!kernel.root.fiber_is_active(63));
    assert!(kernel.root.fiber_is_active(62));
}

#[test]
fn logger_is_built_in() {
    let mut kernel = Kernel::new();
    let ctx = kernel.ctx.clone();
    assert_eq!(ctx.logger(&kernel.root), Reading::Value(0));
    assert_eq!(kernel.get(&ctx, "logger").unwrap(), "default logger");
    let scoped = ctx.isolate(&mut kernel.root, "logger");
    assert_eq!(scoped.logger(&kernel.root), Reading::Missing);
    kernel.provide(&scoped, "logger", "own logger").unwrap();
    assert_eq!(kernel.get(&scoped, "logger").unwrap(), "own logger");
    assert_eq!(kernel.get(&ctx, "logger").unwrap(), "default logger");
}

#[test]
fn sync_slot_reports_its_failures_only() {
    let mut kernel = Kernel::new();
    let ctx = kernel.ctx.clone();
    let callback = kernel.listener(|_, _, _, _| Err(Error::msg("async")));
    ctx.on(&mut kernel.root, "tick", callback).unwrap();
    assert!(kernel.emit_sync(&ctx, "tick", Json::Null).is_ok());
    for text in ["one", "two"] {
        let callback = kernel.listener(move |_, _, _, _| Err(Error::msg(text)));
        ctx.on_sync(&mut kernel.root, "tick", callback).unwrap();
    }
    match kernel.emit_sync(&ctx, "tick", Json::Null) {
        Err(Error::Aggregate(errors)) => {
            let texts: Vec<String> = errors.iter().map(|e| e.render()).collect();
            assert_eq!(texts, ["one", "two"]);
        }
        _ => panic!("must aggregate"),
    }
}

#[test]
fn listeners_end_with_their_fiber() {
    let mut kernel = Kernel::new();
    let ctx = kernel.ctx.clone();
    let plugin = kernel.define("listening", vec![], |kernel, ctx, _config| {
        kernel.on(ctx, "ping", |_, _, _, _| Ok(json("1")))?;
        Ok(())
    });
    let fiber = kernel.start(&ctx, &plugin, None);
    kernel.join(fiber).unwrap();
    assert_eq!(fiber.effect_metas(&kernel.root), ["ctx.on(ping)"]);
    assert_eq!(kernel.serial(&ctx, "ping", Json::Null).unwrap(), json("1"));
    kernel.dispose(fiber);
    assert!(ctx.listeners(&kernel.root, "ping").is_empty());
    assert_eq!(kernel.serial(&ctx, "ping", Json::Null).unwrap(), Json::Null);
    assert_eq!(kernel.parallel(&ctx, "ping", json("2")).unwrap(), json("2"));
}

// ---------------------------------------------------------------------------
// Restarting and updating
// ---------------------------------------------------------------------------

#[test]
fn injected_consumer_restarts_again_and_again() {
    let mut kernel = Kernel::new();
    let ctx = kernel.ctx.clone();
    let seen = log();
    let api = consumer_plugin(&mut kernel, seen.clone());
    let consumer = kernel.start(&ctx, &api, Some(json("1")));
    let database = database_plugin(&mut kernel);
    let provider = kernel.start(&ctx, &database, Some(json(r#"{ "url": "same" }"#)));
    kernel.join(provider).unwrap();
    kernel.join(consumer).unwrap();
    let epoch = kernel.root.fibers[consumer.0].loaded.clone();
    for runs in 2..5 {
        kernel.restart(consumer).unwrap();
        assert_eq!(kernel.state(consumer), FiberState::Active);
        assert_eq!(kernel.root.fibers[consumer.0].loaded, epoch);
        assert_eq!(seen.borrow().len(), runs);
    }
    // An update of a restarted dependent reloads it as well.
    assert_eq!(kernel.update(consumer, json("2")).unwrap(), json("2"));
    assert_eq!(kernel.state(consumer), FiberState::Active);
    assert_eq!(seen.borrow().len(), 5);
    assert_eq!(kernel.update(consumer, json("3")).unwrap(), json("3"));
    assert_eq!(seen.borrow().len(), 6);
    // It still goes with its provider.
    kernel.dispose(provider);
    assert_eq!(kernel.state(consumer), FiberState::Pending);
    kernel.stop();
}

#[test]
fn vetoed_update_leaves_a_dependent_as_it_was() {
    let mut kernel = Kernel::new();
    let ctx = kernel.ctx.clone();
    let configs: Rc<RefCell<Vec<Json>>> = Rc::new(RefCell::new(Vec::new()));
    let sink = configs.clone();
    let plugin = kernel.define("dependent", vec!["database"], move |kernel, ctx, config| {
        sink.borrow_mut().push(config.clone());
        kernel.effect(ctx, "held", |_| {})?;
        Ok(())
    });
    let fiber = kernel.start(&ctx, &plugin, Some(json("1")));
    let database = database_plugin(&mut kernel);
    let provider = kernel.start(&ctx, &database, Some(json(r#"{ "url": "x" }"#)));
    kernel.join(provider).unwrap();
    kernel.join(fiber).unwrap();
    kernel.restart(fiber).unwrap();
    let veto = kernel.on(&ctx, "internal/update", |_, _, _, _| Ok(Json::Null)).unwrap();
    assert_eq!(kernel.update(fiber, json("2")).unwrap(), json("1"));
    assert_eq!(kernel.state(fiber), FiberState::Active);
    assert_eq!(fiber.effect_metas(&kernel.root), ["held"]);
    assert_eq!(*configs.borrow(), [json("1"), json("1")]);
    kernel.restart(fiber).unwrap();
    assert_eq!(*configs.borrow(), [json("1"), json("1"), json("1")]);

    // A hook that passes on something else has that applied.
    kernel.dispose_effect(&veto);
    kernel
        .on(&ctx, "internal/update", |kernel, _ctx, _payload, next| {
            let call = next.unwrap().run(json("3"));
            kernel.next(call)
        })
        .unwrap();
    assert_eq!(kernel.update(fiber, json("2")).unwrap(), json("3"));
    assert_eq!(configs.borrow().last().unwrap(), &json("3"));
    assert_eq!(configs.borrow().len(), 4);
    assert_eq!(kernel.state(fiber), FiberState::Active);
    kernel.stop();
}

#[test]
fn root_fiber_is_active_from_the_start() {
    let kernel = Kernel::new();
    let root = FiberHandle(0);
    assert_eq!(root.uid(&kernel.root), Some(0));
    assert_eq!(root.name(&kernel.root), "root");
    assert_eq!(root.effect_count(&kernel.root), 0);
    assert_eq!(root.state(&kernel.root), FiberState::Active);
    assert!(root.join(&kernel.root).expect("settled").is_ok());
    assert!(kernel.bit(0));
    assert!(!kernel.bit(1));
    assert!(kernel.root.fiber_is_active(0));
}

#[test]
fn failed_fiber_restarts_with_one_run() {
    let mut kernel = Kernel::new();
    let ctx = kernel.ctx.clone();
    let runs = Rc::new(RefCell::new(0));
    let counter = runs.clone();
    let flaky = kernel.define("flaky", vec!["database"], move |_kernel, _ctx, config| {
        *counter.borrow_mut() += 1;
        if *config == json("1") {
            return Err(Error::msg("boom"));
        }
        Ok(())
    });
    let database = database_plugin(&mut kernel);
    let provider = kernel.start(&ctx, &database, Some(json(r#"{ "url": "x" }"#)));
    kernel.join(provider).unwrap();
    let fiber = kernel.start(&ctx, &flaky, Some(json("1")));
    assert_eq!(kernel.join(fiber).unwrap_err().render(), "boom");
    assert_eq!((kernel.state(fiber), *runs.borrow()), (FiberState::Failed, 1));
    assert_eq!(kernel.restart(fiber).unwrap_err().render(), "boom");
    assert_eq!((kernel.state(fiber), *runs.borrow()), (FiberState::Failed, 2));
    assert_eq!(kernel.update(fiber, json("2")).unwrap(), json("2"));
    assert_eq!((kernel.state(fiber), *runs.borrow()), (FiberState::Active, 3));
    kernel.stop();
}

#[test]
fn activation_is_told_in_every_scope_served() {
    let mut kernel = Kernel::new();
    let ctx = kernel.ctx.clone();
    let inside = ctx.isolate_with_label(&mut kernel.root, "cache", 7);
    let seen = log();
    let mut consumers = Vec::new();
    for (who, place) in [("outside", &ctx), ("inside", &inside)] {
        let sink = seen.clone();
        let plugin = kernel.define(who, vec!["cache"], move |kernel, ctx, _config| {
            let value = kernel.require(ctx, "cache")?;
            sink.borrow_mut().push(format!("{} {}", who, value));
            Ok(())
        });
        consumers.push(kernel.start(place, &plugin, None));
    }
    let caches = kernel.define("caches", vec![], |kernel, ctx, _config| {
        let scoped = ctx.isolate_with_label(&mut kernel.root, "cache", 7);
        kernel.provide(&scoped, "cache", "scoped")?;
        kernel.provide(ctx, "cache", "global")?;
        Ok(())
    });
    let provider = kernel.start(&ctx, &caches, None);
    kernel.join(provider).unwrap();
    for consumer in &consumers {
        kernel.join(*consumer).unwrap();
        assert_eq!(kernel.state(*consumer), FiberState::Active);
    }
    let mut lines = lines(&seen);
    lines.sort();
    assert_eq!(lines, ["inside scoped", "outside global"]);
    kernel.dispose(provider);
    for consumer in &consumers {
        assert_eq!(kernel.state(*consumer), FiberState::Pending);
    }
    kernel.stop();
}

#[test]
fn own_snapshot_survives_a_withdrawal_in_another_scope() {
    let mut kernel = Kernel::new();
    let ctx = kernel.ctx.clone();
    kernel.provide(&ctx, "cache", "global").unwrap();
    let guards: Rc<RefCell<Vec<EffectGuard>>> = Rc::new(RefCell::new(Vec::new()));
    let slot = guards.clone();
    let fiber = kernel.inject(vec!["cache"], move |kernel, ctx, _config| {
        let scoped = ctx.isolate(&mut kernel.root, "cache");
        let guard = kernel.provide(&scoped, "cache", "scoped")?;
        slot.borrow_mut().push(guard);
        Ok(())
    });
    kernel.join(fiber).unwrap();
    let guard = guards.borrow()[0];
    kernel.dispose_effect(&guard);
    kernel.restart(fiber).unwrap();
    assert_eq!(kernel.state(fiber), FiberState::Active);
    assert_eq!(guards.borrow().len(), 2);
}

#[test]
fn restarted_dependent_reads_what_was_set() {
    let mut kernel = Kernel::new();
    let ctx = kernel.ctx.clone();
    kernel.provide(&ctx, "config", "one").unwrap();
    let seen = log();
    let sink = seen.clone();
    let consumer = kernel.inject(vec!["config"], move |kernel, ctx, _config| {
        sink.borrow_mut().push(kernel.require(ctx, "config")?);
        Ok(())
    });
    kernel.join(consumer).unwrap();
    kernel.set(&ctx, "config", "two").unwrap();
    // Until it loads again it reads from its snapshot.
    let inner = kernel.root.fibers[consumer.0].ctx.clone();
    assert_eq!(kernel.get(&inner, "config").unwrap(), "one");
    kernel.restart(consumer).unwrap();
    assert_eq!(kernel.get(&inner, "config").unwrap(), "two");
    assert_eq!(lines(&seen), ["one", "two"]);
}

#[test]
fn provide_dispose_provide() {
    let mut kernel = Kernel::new();
    let ctx = kernel.ctx.clone();
    let plugin = kernel.define("owner", vec![], |_kernel, _ctx, _config| Ok(()));
    let fiber = kernel.start(&ctx, &plugin, None);
    kernel.join(fiber).unwrap();
    let inner = kernel.root.fibers[fiber.0].ctx.clone();
    let first = kernel.provide(&inner, "thing", "v1").unwrap();
    assert_eq!(kernel.get(&inner, "thing").unwrap(), "v1");
    let error = kernel.provide(&inner, "thing", "v2").unwrap_err();
    assert_eq!(error.code(), Some(CordisCode::DuplicateService.as_str()));
    kernel.dispose_effect(&first);
    assert!(kernel.get(&inner, "thing").is_none());
    kernel.provide(&inner, "thing", "v2").unwrap();
    assert_eq!(kernel.get(&inner, "thing").unwrap(), "v2");
    assert_eq!(fiber.effect_metas(&kernel.root), ["ctx.provide(thing)"]);
    kernel.stop();
}

#[test]
fn listeners_come_and_go() {
    let mut kernel = Kernel::new();
    let ctx = kernel.ctx.clone();
    let numbers = |kernel: &Kernel, name: &str| -> Vec<u64> {
        kernel.ctx.listeners(&kernel.root, name).iter().map(|d| d.callback).collect()
    };
    let quiet = |kernel: &mut Kernel| kernel.listener(|_, _, payload, _| Ok(payload));
    let a = quiet(&mut kernel);
    let b = quiet(&mut kernel);
    let c = quiet(&mut kernel);
    ctx.on(&mut kernel.root, "ping", a).unwrap();
    ctx.on(&mut kernel.root, "pong", c).unwrap();
    let last = ctx.on_with(&mut kernel.root, "ping", b, false, false, false).unwrap();
    assert_eq!(numbers(&kernel, "ping"), [a, b]);
    assert_eq!(numbers(&kernel, "pong"), [c]);
    assert_eq!(
        FiberHandle(0).effect_metas(&kernel.root),
        ["ctx.on(ping)", "ctx.on(pong)", "ctx.on(ping)"]
    );
    kernel.dispose_effect(&last);
    assert_eq!(numbers(&kernel, "ping"), [a]);
    let first = ctx.on_with(&mut kernel.root, "ping", b, true, false, false).unwrap();
    assert_eq!(numbers(&kernel, "ping"), [b, a]);
    ctx.on_global(&mut kernel.root, "ping", c).unwrap();
    kernel.dispose_effect(&first);
    assert_eq!(numbers(&kernel, "ping"), [c, a]);
    assert_eq!(numbers(&kernel, "pong"), [c]);
}

#[test]
fn one_shot_listener_is_armed_when_it_is_registered() {
    let mut kernel = Kernel::new();
    let ctx = kernel.ctx.clone();
    let mut gate = OnceGate::new();
    let callback = kernel.listener(|_, _, payload, _| Ok(payload));
    let guard = ctx.once(&mut kernel.root, "boot", callback, &mut gate).unwrap();
    assert_eq!(gate.guard, Some(guard));
    assert!(gate.enter(&mut kernel.root));
    assert!(ctx.listeners(&kernel.root, "boot").is_empty());

    let unbound = Context { fiber: None, ..ctx.clone() };
    let mut refused = OnceGate::new();
    assert!(unbound.once(&mut kernel.root, "boot", callback, &mut refused).is_err());
    assert_eq!(refused.guard, None);
}

#[test]
fn numbers_are_let_go() {
    let mut kernel = Kernel::new();
    let ctx = kernel.ctx.clone();
    let plugin = kernel.define("owner", vec![], |_kernel, _ctx, _config| Ok(()));
    let fiber = kernel.start(&ctx, &plugin, None);
    kernel.join(fiber).unwrap();
    let consumer = kernel.inject(vec!["thing"], |_kernel, _ctx, _config| Ok(()));
    let guard = kernel.provide_with_check(&ctx, "thing", "v", |_, _| true).unwrap();
    kernel.join(consumer).unwrap();
    let value = kernel.values.len() as u64 - 1;
    let check = kernel.checks.len() as u64 - 1;
    assert!(kernel.root.holds_value(value));
    assert!(kernel.root.holds_check(check));
    assert!(!kernel.root.holds_value(value + 1));
    assert!(!kernel.root.holds_check(check + 1));
    // Set, the dependent still has a snapshot of the former value.
    kernel.set(&ctx, "thing", "w").unwrap();
    assert!(kernel.root.holds_value(value));
    assert!(kernel.root.holds_value(value + 1));
    kernel.dispose_effect(&guard);
    assert!(!kernel.root.holds_value(value));
    assert!(!kernel.root.holds_value(value + 1));
    assert!(!kernel.root.holds_check(check));

    let guard = kernel.accessor(&ctx, "sum", |_, _| None).unwrap();
    assert!(kernel.root.holds_compute(0));
    assert!(!kernel.root.holds_compute(1));
    kernel.dispose_effect(&guard);
    assert!(!kernel.root.holds_compute(0));

    let guard = kernel.on(&ctx, "ping", |_, _, payload, _| Ok(payload)).unwrap();
    let callback = kernel.listeners.len() as u64 - 1;
    assert!(kernel.root.holds_listener(callback));
    assert!(!kernel.root.holds_listener(callback + 1));
    kernel.dispose_effect(&guard);
    assert!(!kernel.root.holds_listener(callback));

    assert!(kernel.root.holds_plugin(plugin.key));
    assert!(!kernel.root.holds_plugin(77));
    assert!(fiber.dispose(&mut kernel.root));
    assert!(kernel.root.holds_plugin(plugin.key), "still unloading");
    kernel.pump();
    assert!(!kernel.root.holds_plugin(plugin.key));
    // The built-in logger stays.
    assert!(kernel.root.holds_value(0));
}

#[test]
fn service_that_returns_while_its_dependent_unloads_is_seen_fresh() {
    let mut kernel = Kernel::new();
    let ctx = kernel.ctx.clone();
    let seen = log();
    let sink = seen.clone();
    let root = ctx.clone();
    let consumer = kernel.inject(vec!["config"], move |kernel, ctx, _config| {
        let value = kernel.require(ctx, "config")?;
        sink.borrow_mut().push(value.clone());
        let root = root.clone();
        kernel.effect(ctx, "bring it back", move |kernel| {
            if value == "one" {
                kernel.provide(&root, "config", "two").unwrap();
            }
        })?;
        Ok(())
    });
    let guard = kernel.provide(&ctx, "config", "one").unwrap();
    kernel.join(consumer).unwrap();
    kernel.dispose_effect(&guard);
    kernel.join(consumer).unwrap();
    assert_eq!(kernel.state(consumer), FiberState::Active);
    assert_eq!(lines(&seen), ["one", "two"]);
}

// ---------------------------------------------------------------------------
// Who logs, who drives, which id
// ---------------------------------------------------------------------------

#[test]
fn failed_startup_is_logged_where_the_fiber_lives() {
    let mut kernel = Kernel::new();
    let ctx = kernel.ctx.clone();
    let scoped = ctx.isolate(&mut kernel.root, "logger");
    kernel.provide(&scoped, "logger", "scoped logger").unwrap();
    let faulty = kernel.define("faulty", vec![], |_kernel, _ctx, _config| Err(Error::msg("boom")));
    let inside = kernel.start(&scoped, &faulty, None);
    assert!(kernel.join(inside).is_err());
    let outside = kernel.start(&ctx, &faulty, None);
    assert!(kernel.join(outside).is_err());
    assert_eq!(kernel.loggers, ["scoped logger", "default logger"]);
    assert_eq!(kernel.logged.len(), 2);
}

#[test]
fn failed_observer_is_reported_where_the_event_comes_from() {
    let mut kernel = Kernel::new();
    let ctx = kernel.ctx.clone();
    let scoped = ctx.isolate(&mut kernel.root, "logger");
    kernel.provide(&scoped, "logger", "scoped logger").unwrap();
    for name in ["internal/plugin", "internal/status", "internal/service"] {
        kernel.on_global(&ctx, name, |_, _, _, _| Err(Error::msg("deaf"))).unwrap();
    }
    let plugin = kernel.define("speaker", vec![], |kernel, ctx, _config| {
        kernel.provide(ctx, "voice", "x")?;
        Ok(())
    });
    kernel.pump();
    kernel.complaints.clear();
    let fiber = kernel.start(&scoped, &plugin, None);
    kernel.join(fiber).unwrap();
    kernel.dispose(fiber);
    let mut names: Vec<&str> = kernel.complaints.iter().map(|c| c.0.as_str()).collect();
    names.sort();
    names.dedup();
    assert_eq!(names, ["internal/plugin", "internal/service", "internal/status"]);
    assert!(kernel.complaints.iter().all(|c| c.1 == "scoped logger"), "{:?}", kernel.complaints);

    kernel.complaints.clear();
    let fiber = kernel.start(&ctx, &plugin, None);
    kernel.join(fiber).unwrap();
    assert!(!kernel.complaints.is_empty());
    assert!(kernel.complaints.iter().all(|c| c.1 == "default logger"), "{:?}", kernel.complaints);
}

#[test]
fn work_left_means_a_driver() {
    let mut kernel = Kernel::new();
    let ctx = kernel.ctx.clone();
    let mut gated = kernel.define("gated", vec![], |_kernel, _ctx, _config| Ok(()));
    gated.held = true;
    kernel.redefine(&gated);
    let fiber = kernel.start(&ctx, &gated, None);
    assert!(kernel.root.fibers[fiber.0].driver.running);
    kernel.pump();
    assert!(kernel.root.fibers[fiber.0].driver.running);
    // A restart in the middle of a load starts no second driver.
    fiber.restart(&mut kernel.root).unwrap();
    let orders = kernel
        .root
        .take_outbox()
        .iter()
        .filter(|c| matches!(c, Command::Drive(_)))
        .count();
    assert_eq!(orders, 0);
    kernel.plugins[gated.key as usize - 1].held = false;
    kernel.release();
    kernel.join(fiber).unwrap();
    assert!(!kernel.root.fibers[fiber.0].driver.running);
    assert_eq!(kernel.state(fiber), FiberState::Active);
    fiber.restart(&mut kernel.root).unwrap();
    let orders = kernel
        .root
        .take_outbox()
        .iter()
        .filter(|c| matches!(c, Command::Drive(f) if *f == fiber.0))
        .count();
    assert_eq!(orders, 1);
}

#[test]
fn disposed_fiber_unloads_and_settles() {
    let mut kernel = Kernel::new();
    let ctx = kernel.ctx.clone();
    let plugin = kernel.define("plugin", vec![], |kernel, ctx, _config| {
        kernel.provide(ctx, "thing", "x")?;
        kernel.on(ctx, "ping", |_, _, payload, _| Ok(payload))?;
        Ok(())
    });
    let fiber = kernel.start(&ctx, &plugin, None);
    kernel.join(fiber).unwrap();
    assert!(fiber.dispose(&mut kernel.root));
    assert!(fiber.join(&kernel.root).is_none(), "still unloading");
    kernel.pump();
    assert!(fiber.join(&kernel.root).expect("settled").is_ok());
    assert_eq!(kernel.root.fibers[fiber.0].loaded, "");
    assert_eq!(fiber.effect_count(&kernel.root), 0);
    assert_eq!(kernel.state(fiber), FiberState::Disposed);
    assert!(!kernel.root.fibers[fiber.0].driver.running);
}

#[test]
fn effect_ids_do_not_run_out() {
    let mut kernel = Kernel::new();
    let ctx = kernel.ctx.clone();
    let first = kernel.provide(&ctx, "first", "1").unwrap();
    assert_eq!(first.id, 1);
    kernel.root.fibers[0].next_effect_id = u64::MAX;
    let last = kernel.provide(&ctx, "last", "2").unwrap();
    assert_eq!(last.id, u64::MAX);
    let around = kernel.provide(&ctx, "around", "3").unwrap();
    assert_eq!(around.id, 0);
    // The next number is taken by a live effect.
    let after = kernel.provide(&ctx, "after", "4").unwrap();
    assert_eq!(after.id, 2);
    kernel.dispose_effect(&around);
    assert!(kernel.get(&ctx, "around").is_none());
    for (name, value) in [("first", "1"), ("last", "2"), ("after", "4")] {
        assert_eq!(kernel.get(&ctx, name).unwrap(), value);
    }
}
