//! Per-user risk-tolerance configuration with a time-ordered, append-only log
//! of risk-score measurements.
//!
//! The crate keeps one mutable `RiskPreference` record per owning identity and
//! an append-only collection of immutable `RiskSnapshot` records keyed by
//! `(owner, timestamp)`. Only the owning identity may mutate its own records.
//! Every recorded measurement also produces a transient `RiskAlertEvent` that
//! carries the owner's current threshold for downstream observers.
//!
//! The abstract behaviour of every operation is given by spec-level transition
//! functions in [`model`]; the executable store in [`store`] is proved to
//! follow those transitions exactly, and [`laws`] states and proves the
//! library-wide guarantees (single initialization, authorization, duplicate
//! rejection, append-only history).

pub mod error;
pub mod identity;
pub mod laws;
pub mod model;
pub mod records;
pub mod store;
