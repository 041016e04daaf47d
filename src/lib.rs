//! Streams assets into a frame loop without blocking it: a request by path
//! yields a handle at once, loads run elsewhere, and each frame promotes the
//! finished ones into per-kind pools that serve a fallback until then.

pub mod asset;
pub mod channel;
pub mod handle;
pub mod laws;
pub mod manager;
pub mod pool;
pub mod scene;
pub mod sprite;
pub mod state;
