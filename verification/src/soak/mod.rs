//! The soak: cycle after cycle of the engine's product paths, each held to the same checks.

pub mod cycle;
pub mod honesty;
pub mod priors;
pub mod totals;
pub mod watch;
