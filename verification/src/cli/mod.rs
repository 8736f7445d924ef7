//! Command lines: the options of each program, what their values may be, and how they go
//! together.

pub mod agreement;
pub mod census;
pub mod data_plane;
pub mod display;
pub mod rss_week;
pub mod scrub_burst;
pub mod seek;
pub mod soak;
pub mod words;
