//! Spiral Wallpaper: what a wallpaper search returns, the status codes the
//! frontend maps to its own copy, the cache's rules for names, image types
//! and eviction, and the settings. The network, the disk and the desktop are
//! the caller's work.

pub mod net;
pub mod sources;
pub mod cache;
pub mod settings;
