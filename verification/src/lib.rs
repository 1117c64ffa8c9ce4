//! Verified core of a clipboard history manager: content classification,
//! change detection by content fingerprint, a bounded eviction-aware history
//! store, a byte-exact persistence codec, and the paste-replay plan.
pub mod classify;
pub mod codec;
pub mod defaults;
pub mod hash;
pub mod json;
pub mod models;
pub mod num;
pub mod outside;
pub mod paste;
pub mod query;
pub mod shortcut;
pub mod store;
pub mod watcher;
