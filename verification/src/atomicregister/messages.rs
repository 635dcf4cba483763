//! The four messages that register nodes exchange.

use vstd::prelude::*;

verus! {

/// Asks a node for the tag and value it stores for `key`.
#[derive(Clone, Copy, Debug, PartialEq, Eq, Structural)]
pub struct Read {
    pub run_id: u32,
    pub key: u64,
    pub rid: u32,
}

/// Confirms that a `Write` was received.
#[derive(Clone, Copy, Debug, PartialEq, Eq, Structural)]
pub struct Ack {
    pub run_id: u32,
    pub key: u64,
    pub rid: u32,
}

/// Answers a `Read` with the tag `(ts, wr)` and the value that the sender stores.
#[derive(Clone, Copy, Debug, PartialEq, Eq, Structural)]
pub struct Value {
    pub run_id: u32,
    pub key: u64,
    pub rid: u32,
    pub ts: u32,
    pub wr: u32,
    pub value: u32,
    /// Rank of the node that answers; replies are indexed by it.
    pub sender_rank: u32,
}

/// Asks a node to store `value` under the tag `(ts, wr)`.
#[derive(Clone, Copy, Debug, PartialEq, Eq, Structural)]
pub struct Write {
    pub run_id: u32,
    pub key: u64,
    pub rid: u32,
    pub ts: u32,
    pub wr: u32,
    pub value: u32,
}

/// A message of the register protocol.
#[derive(Clone, Copy, Debug, PartialEq, Eq, Structural)]
pub enum AtomicRegisterMessage {
    Read(Read),
    Value(Value),
    Write(Write),
    Ack(Ack),
}

impl AtomicRegisterMessage {
    /// The iteration that the message belongs to.
    pub open spec fn spec_run_id(self) -> u32 {
        match self {
            AtomicRegisterMessage::Read(r) => r.run_id,
            AtomicRegisterMessage::Value(v) => v.run_id,
            AtomicRegisterMessage::Write(w) => w.run_id,
            AtomicRegisterMessage::Ack(a) => a.run_id,
        }
    }

    /// The register that the message is about.
    pub open spec fn spec_key(self) -> u64 {
        match self {
            AtomicRegisterMessage::Read(r) => r.key,
            AtomicRegisterMessage::Value(v) => v.key,
            AtomicRegisterMessage::Write(w) => w.key,
            AtomicRegisterMessage::Ack(a) => a.key,
        }
    }

    /// The iteration that the message belongs to.
    #[verifier::when_used_as_spec(spec_run_id)]
    pub fn run_id(self) -> (id: u32)
        ensures
            id == self.spec_run_id(),
    {
        match self {
            AtomicRegisterMessage::Read(r) => r.run_id,
            AtomicRegisterMessage::Value(v) => v.run_id,
            AtomicRegisterMessage::Write(w) => w.run_id,
            AtomicRegisterMessage::Ack(a) => a.run_id,
        }
    }

    /// The register that the message is about.
    #[verifier::when_used_as_spec(spec_key)]
    pub fn key(self) -> (k: u64)
        ensures
            k == self.spec_key(),
    {
        match self {
            AtomicRegisterMessage::Read(r) => r.key,
            AtomicRegisterMessage::Value(v) => v.key,
            AtomicRegisterMessage::Write(w) => w.key,
            AtomicRegisterMessage::Ack(a) => a.key,
        }
    }
}

} // verus!
