//! A replicated atomic register: a linearizable multi-writer register kept on
//! `n` processes by majority quorums, together with the wire codec of its
//! messages, the coordinator that drives one iteration, and the small state
//! machines around them.
//!
//! Every handler is a function from a state and an event to the next state and
//! the messages to send; nothing here performs I/O.

pub mod atomicregister;
pub mod serialiser_ids;
pub mod partitioning_actor;
pub mod partitioning_ser;
pub mod benchmark_master;
pub mod netpingpong;
