//! Replay of a recorded log: a forward cursor over its frames, checkpoint restoration and
//! cancellable tail replay.

pub mod error;
pub mod frames;
pub mod laws;
pub mod ordinal;
pub mod probe;
pub mod sections;
pub mod source;
pub mod splice;
