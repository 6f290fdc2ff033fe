//! Core of a small pastebin service: collision-avoiding random paste
//! identifiers, a bounded in-memory paste store with first-in-first-out
//! eviction, and a durable paste repository abstraction with an in-memory
//! implementation and the verified planning core of the disk-backed one.

pub mod id;
pub mod store;
pub mod repo;
pub mod disk;
pub mod flow;
