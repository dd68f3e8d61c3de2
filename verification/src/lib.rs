//! A topic-based publish/subscribe hub.
//!
//! Publishers tag each message with a topic; subscribers attach to a topic
//! and receive every message published from the moment they attach onward.
//! The hub keeps a registry of topics, each owning a [`broadcaster::Broadcaster`]
//! that fans messages out through a bounded buffer of the most recent payloads;
//! a subscription that falls more than [`broadcaster::CAPACITY`] messages behind
//! is told how many it missed instead of replaying stale history.

pub mod broadcaster;
pub mod directory;
pub mod event;
pub mod hub;
