//! An in-process publish/subscribe registry.
//!
//! A [`PubSub`] tracks a set of addressable clients, their subscriptions to
//! named channels (exact names or glob-style patterns), and dispatches
//! published payloads to the deduplicated set of current subscribers.
//!
//! The registry never performs I/O itself: delivery goes through the
//! [`Client`] capability supplied by the caller.

pub mod errors;
pub mod laws;
pub mod matcher;
pub mod registry;
pub mod store;

pub use errors::PubSubError;
pub use matcher::channel_is_pattern;
pub use matcher::pattern_matches;
pub use registry::Client;
pub use registry::PubSub;
