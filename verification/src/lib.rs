//! A message channel over a unix stream: growable byte buffers, readiness
//! flags, zero-byte message framing, and the command messages exchanged on it.

pub mod buffer;
pub mod channel;
pub mod command;
pub mod framing;
pub mod ready;
pub mod socket;
