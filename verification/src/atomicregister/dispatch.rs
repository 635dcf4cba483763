//! From effects to addressed messages.

use crate::atomicregister::codec::SerError;
use crate::atomicregister::messages::AtomicRegisterMessage;
use crate::atomicregister::model::{Effect, ProtocolError};
use vstd::prelude::*;

verus! {

/// What a node sends.
#[derive(Clone, Copy, Debug, PartialEq, Eq, Structural)]
pub enum Payload {
    /// A message of the register protocol, to a node.
    Register(AtomicRegisterMessage),
    /// The node is set up for the iteration it names; to the coordinator.
    InitAck(u32),
    /// The node has completed its operations; to the coordinator.
    Done,
}

/// A payload with the path of its receiver.
#[derive(Clone, Debug, PartialEq, Eq)]
pub struct Envelope {
    pub to: String,
    pub payload: Payload,
}

/// Why a node did not handle what it received.
#[derive(Clone, Debug, PartialEq, Eq)]
pub enum ReceiveError {
    /// The bytes are no message of the register protocol.
    Decode(SerError),
    /// The message was refused.
    Protocol(ProtocolError),
}

/// The paths held in `nodes`; none where there is no list.
pub open spec fn known(nodes: Option<Vec<String>>) -> Seq<String> {
    match nodes {
        Some(list) => list@,
        None => Seq::empty(),
    }
}

/// What `r` refers to, if anything.
pub open spec fn referent(r: Option<&String>) -> Option<String> {
    match r {
        Some(s) => Some(*s),
        None => None,
    }
}

/// `payload` to every node of `nodes`, in their order.
pub open spec fn fan_out(nodes: Seq<String>, payload: Payload) -> Seq<Envelope> {
    Seq::new(nodes.len(), |i: int| Envelope { to: nodes[i], payload })
}

/// The messages that one effect asks for: a reply goes to `sender`, a
/// broadcast to every node of `nodes`, the node itself included, and the
/// notice of completion to `master`. A completed operation by itself sends
/// nothing, and neither does a message to someone unknown.
pub open spec fn route_one(
    effect: Effect,
    sender: Option<String>,
    master: Option<String>,
    nodes: Seq<String>,
) -> Seq<Envelope> {
    match effect {
        Effect::Reply(m) => match sender {
            Some(to) => seq![Envelope { to, payload: Payload::Register(m) }],
            None => Seq::empty(),
        },
        Effect::Broadcast(m) => fan_out(nodes, Payload::Register(m)),
        Effect::ReadResponse { .. } => Seq::empty(),
        Effect::WriteResponse { .. } => Seq::empty(),
        Effect::Done => match master {
            Some(to) => seq![Envelope { to, payload: Payload::Done }],
            None => Seq::empty(),
        },
    }
}

/// The messages that `effects` ask for, in order.
pub open spec fn route(
    effects: Seq<Effect>,
    sender: Option<String>,
    master: Option<String>,
    nodes: Seq<String>,
) -> Seq<Envelope>
    decreases effects.len(),
{
    if effects.len() == 0 {
        Seq::empty()
    } else {
        route(effects.drop_last(), sender, master, nodes) + route_one(
            effects.last(),
            sender,
            master,
            nodes,
        )
    }
}

/// Addresses `payload` to every node of `nodes`.
pub fn bcast(nodes: &Vec<String>, payload: Payload) -> (out: Vec<Envelope>)
    ensures
        out@ == fan_out(nodes@, payload),
{
    let mut out: Vec<Envelope> = Vec::new();
    let mut i: usize = 0;
    while i < nodes.len()
        invariant
            i <= nodes.len(),
            out@ == fan_out(nodes@.subrange(0, i as int), payload),
        decreases nodes.len() - i,
    {
        out.push(Envelope { to: nodes[i].clone(), payload });
        assert(out@ =~= fan_out(nodes@.subrange(0, i + 1), payload));
        i = i + 1;
    }
    assert(nodes@.subrange(0, nodes@.len() as int) =~= nodes@);
    out
}

/// The messages that `effect` asks for.
pub fn deliver_one(
    effect: Effect,
    sender: Option<&String>,
    master: &Option<String>,
    nodes: &Option<Vec<String>>,
) -> (out: Vec<Envelope>)
    ensures
        out@ == route_one(effect, referent(sender), *master, known(*nodes)),
{
    let mut out: Vec<Envelope> = Vec::new();
    match effect {
        Effect::Reply(m) => {
            if let Some(to) = sender {
                out.push(Envelope { to: to.clone(), payload: Payload::Register(m) });
            }
        },
        Effect::Broadcast(m) => {
            if let Some(list) = nodes {
                out = bcast(list, Payload::Register(m));
            }
        },
        Effect::ReadResponse { .. } => {},
        Effect::WriteResponse { .. } => {},
        Effect::Done => {
            if let Some(to) = master {
                out.push(Envelope { to: to.clone(), payload: Payload::Done });
            }
        },
    }
    assert(out@ =~= route_one(effect, referent(sender), *master, known(*nodes)));
    out
}

/// The messages that `effects` ask for, in order.
pub fn deliver(
    effects: &Vec<Effect>,
    sender: Option<&String>,
    master: &Option<String>,
    nodes: &Option<Vec<String>>,
) -> (out: Vec<Envelope>)
    ensures
        out@ == route(effects@, referent(sender), *master, known(*nodes)),
{
    let mut out: Vec<Envelope> = Vec::new();
    let mut i: usize = 0;
    while i < effects.len()
        invariant
            i <= effects.len(),
            out@ == route(
                effects@.subrange(0, i as int),
                referent(sender),
                *master,
                known(*nodes),
            ),
        decreases effects.len() - i,
    {
        let mut more: Vec<Envelope> = deliver_one(effects[i], sender, master, nodes);
        out.append(&mut more);
        proof {
            let upto = effects@.subrange(0, i + 1);
            assert(upto.drop_last() =~= effects@.subrange(0, i as int));
            assert(upto.last() == effects@[i as int]);
        }
        i = i + 1;
    }
    assert(effects@.subrange(0, effects@.len() as int) =~= effects@);
    out
}

} // verus!
