//! The atomic register protocol: messages, codec, per-key state and the node.

pub mod big_endian;
pub mod codec;
pub mod messages;
pub mod readlist;
pub mod register;
pub mod model;
pub mod node;
pub mod laws;
pub mod actor_atomicregister;
pub mod dispatch;
pub mod mixed_atomicregister;
pub mod config;
