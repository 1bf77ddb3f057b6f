//! A request-admission governor: layered per-client quotas over HTTP routes.
//!
//! A [`RuleRegistry`] holds one global default rule and an ordered list of
//! route rules. For every request the resolver picks the rules that govern
//! it, the [`CounterStore`] counts the request against each of them in a
//! fixed window per client identity, and the [`Governor`] combines the
//! outcomes into a [`Verdict`]. A [`GovernorMiddleware`] turns the verdict
//! into what an interception stage does with the request.
//!
//! Time never comes from a clock in here: every operation that depends on it
//! takes the current instant as a number of milliseconds. Nothing in here
//! locks either: the governor is changed through `&mut`, and a serving stack
//! that shares one puts it behind a lock of its own.
//!
//! Each module states beside its functions what holds of them for every
//! input: that a quota is kept in every window, that counters do not touch
//! one another, that the store stays within its budget and gives up the
//! least recently used counter first, and that a lookup has one answer only.

pub mod config;
pub mod governor;
pub mod method;
pub mod middleware;
pub mod registry;
pub mod resolver;
pub mod rule;
pub mod store;
pub mod text;

pub use config::GovernorConfig;
pub use governor::{Governor, GovernorView, Verdict};
pub use method::{map_method, HttpMethod};
pub use middleware::{GovernorMiddleware, Outcome};
pub use registry::{RegistryView, RuleRegistry};
pub use resolver::{resolve, Mode};
pub use rule::{ConfigError, MatchKind, Rule, RuleId, RuleView, Scope, ScopeView};
pub use store::{Counter, CounterKey, CounterStore, Decision, Slot, CountersView};
