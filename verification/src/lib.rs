//! Replay, gate and pane logic of the `fft` market display.

pub mod text;
pub mod num;
pub mod datetime;
pub mod event;
pub mod replay;
pub mod render;
pub mod dom_view;
pub mod os_theme;
pub mod frame_stats;
pub mod gate_report;
pub mod harness;
pub mod layout;
pub mod dom_badges;
pub mod glyph_cache;
pub mod mp_view;
pub mod header;
pub mod pane_state;
pub mod census;
pub mod refresh_section;
pub mod sampling;
pub mod json;
pub mod data_plane;
pub mod cli;
pub mod runs;
pub mod soak;
pub mod ladder;
pub mod mp_plan;
pub mod lockfile;
