//! Synchronization core for keeping two copies of a simulation world
//! consistent over an unreliable, ordered transport.
//!
//! Entities and global resources carry stable numeric identities and
//! monotonic sequence numbers; updates are applied only when they are
//! strictly newer than the last accepted update and come from the
//! recorded owner.  A byte-level wire codec turns a whole world into a
//! message and back.

pub mod apply;
pub mod codec;
pub mod dj;
pub mod error;
pub mod id;
pub mod laws;
pub mod stat;
pub mod sync;
pub mod timing;
pub mod wire;
pub mod world;
