//! A JSON-RPC reverse proxy core: weighted random dispatch over a pool
//! of upstream backends, per-method routing overrides, admission by api
//! key, request-target rewriting, and a health store driven by a
//! hysteresis rule over probe outcomes.

pub mod config;
pub mod digits;
pub mod dispatch;
pub mod extract;
pub mod forward;
pub mod health;
pub mod health_report;
pub mod probe;
