//! An in-process key-value store core layered over an ordered on-disk tree.
//!
//! The store keeps three layers for every key: pending dirty writes, an
//! immutable in-flight persistence batch, and the durable tree itself. All
//! decision logic — the operation engine, the expiration index, the deferred
//! persistence scheduler — lives here and is verified. The surrounding process
//! supplies the clock, the disk reads and writes, and the worker threads.

pub mod backup;
pub mod codec;
pub mod config;
pub mod database;
pub mod keys;
pub mod kvmap;
pub mod laws;
pub mod ops;
pub mod persist;
pub mod state;
pub mod time;
pub mod value;
pub mod worker;

pub use time::{Duration, Timestamp};
