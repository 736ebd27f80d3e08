//! A multi-room text relay: a registry of bounded rooms, the fan-out of room
//! messages to members, and the per-connection session protocol that drives them.

pub mod ids;
pub mod room;
pub mod registry;
pub mod protocol;
pub mod router;
pub mod session;
