//! A kernel for programs assembled from plugins.
//!
//! A plugin declares the services it requires and provides services of its
//! own; nothing is wired by hand. The kernel keeps the dependency graph and
//! converges every running plugin, a *fiber*, towards the *epoch* that the
//! providers of its services call for: it loads a fiber once all its services
//! are there, unloads it when one goes, and loads it again when it returns.
//!
//! The kernel is a state machine. [`RootState`] holds everything that the
//! contexts of one root share; a transition changes it and leaves commands in
//! its outbox. Whoever runs the kernel carries them out (runs drivers, calls
//! listeners, wakes waiters) and hands back what plugins, listeners and
//! cleanup routines came to. Values, callbacks, predicates, producers and
//! cleanup routines are known to the kernel by number only.
//!
//! - [`context`], [`scope`]: contexts, isolation and interception
//! - [`plugin`], [`registry`], [`handle`]: plugins and their fibers
//! - [`fiber`], [`lifecycle`], [`drive`], [`driver`], [`transitions`],
//!   [`convergence`]: the life of a fiber
//! - [`effects`], [`registrations`], [`disposal`], [`teardown`]: what a fiber
//!   registers, and how it is undone
//! - [`service`], [`resolve`], [`reactivity`], [`dependents`], [`reload`]: services
//!   and their dependents
//! - [`events`], [`dispatch`], [`bus`], [`once`], [`payload`]: the event bus
//! - [`error`], [`logger`], [`json`], [`names`], [`text`]: what the rest uses
//! - [`views`]: what the state is spoken of as
//! - [`retention`]: what the kernel still refers to
//! - [`timer`]: timeouts and intervals as effects
//! - [`contract`]: the surface towards plugins that are loaded at run time

pub mod bus;
pub mod context;
pub mod contract;
pub mod convergence;
pub mod dependents;
pub mod dispatch;
pub mod disposal;
pub mod drive;
pub mod driver;
pub mod effects;
pub mod error;
pub mod events;
pub mod fiber;
pub mod handle;
pub mod json;
pub mod lifecycle;
pub mod logger;
pub mod names;
pub mod once;
pub mod payload;
pub mod plugin;
pub mod reactivity;
pub mod registrations;
pub mod registry;
pub mod reload;
pub mod resolve;
pub mod retention;
pub mod root;
pub mod scope;
pub mod service;
pub mod teardown;
pub mod text;
pub mod timer;
pub mod transitions;
pub mod views;

pub use context::Context;
pub use dispatch::Next;
pub use effects::EffectGuard;
pub use error::{CordisCode, CordisError, Error, ValidationError, ValidationIssue};
pub use events::is_bailed;
pub use fiber::{Disposer, FiberState};
pub use json::Json;
pub use logger::{DefaultLogger, LevelFilter, LogLevel, Logger, LoggerHandle};
pub use plugin::{Injection, IntoInjections};
pub use registry::FiberHandle;
pub use root::RootState;
