//! Menu schedule engine: a verified entity store for menu data together with
//! the scheduling logic that activates menu presets inside time windows.
//!
//! The store (`storage`) keeps five collections — menu items, notices, admin
//! users, menu presets, menu schedules — and persists each one as a snapshot
//! document produced and checked by `codec`. The engine (`scheduler`)
//! evaluates the schedule collection once per tick, resolves conflicts, and
//! rewrites menu-item availability from the active preset. `handlers` carries
//! the request-level operations; `auth` the password handling; process glue
//! such as files, timers and transport stays outside this crate.

pub mod auth;
pub mod codec;
pub mod error_handler;
pub mod handlers;
pub mod scheduler;
pub mod storage;
