//! The register node that hands its broadcasts to a broadcaster, which sends
//! them in the node's name.

use crate::atomicregister::codec::{spec_deserialise, AtomicRegisterSer};
use crate::atomicregister::config::{
    client_conf_text, conf_read, join_client_conf, split_client_conf, AtomicRegisterMaster,
    BenchmarkError, LABEL,
};

use crate::atomicregister::dispatch::{
    deliver_one, fan_out, known, referent, route, route_one, Envelope, Payload, ReceiveError,
};
use crate::atomicregister::messages::AtomicRegisterMessage;
use crate::atomicregister::model::{
    model_handle, model_new, model_new_iteration, model_run, Effect, NodeModel, ProtocolError,
};
use crate::atomicregister::node::RegisterNode;
use crate::partitioning_actor::{copy_paths, Init};
use crate::serialiser_ids::ATOMICREG_ID;
use vstd::prelude::*;

verus! {

/// The benchmark of the register node that broadcasts through a broadcaster.
#[derive(Default)]
pub struct AtomicRegister;

impl AtomicRegister {
    /// Name of the benchmark.
    pub fn label() -> (name: &'static str)
        ensures
            name@ == LABEL@,
    {
        LABEL
    }

    /// A master that was not set up yet.
    pub fn new_master() -> (master: AtomicRegisterMaster)
        ensures
            master@ == AtomicRegisterMaster::spec_new(),
    {
        AtomicRegisterMaster::new()
    }

    /// Splits a client configuration, which is written `read,write`, into
    /// its two fields. A string with no comma or with more than one is no
    /// client configuration.
    pub fn str_to_client_conf(str: &str) -> (res: Result<(String, String), BenchmarkError>)
        ensures
            conf_read(str@, res),
    {
        split_client_conf(str)
    }

    /// Writes a client configuration out.
    pub fn client_conf_to_str(read_workload: &str, write_workload: &str) -> (text: String)
        ensures
            text@ == client_conf_text(read_workload@, write_workload@),
    {
        join_client_conf(read_workload, write_workload)
    }
}

/// What the broadcaster is to remember for an iteration.
#[derive(Clone, Debug, PartialEq, Eq)]
pub struct CacheInfo {
    /// The path of the register node, in whose name the broadcaster sends.
    pub sender: String,
    /// Every node of the iteration, in the order of the ranks.
    pub nodes: Vec<String>,
}

/// Confirms that the broadcaster has taken in a `CacheInfo`.
#[derive(Clone, Copy, Debug, PartialEq, Eq, Structural)]
pub struct CacheNodesAck;

/// Asks the broadcaster to send a message to every node.
#[derive(Clone, Copy, Debug, PartialEq, Eq, Structural)]
pub struct BroadcastRequest(pub AtomicRegisterMessage);

/// A message that the broadcaster sends: it goes out with `from` as its
/// source, so that the answer returns to the register node.
#[derive(Clone, Debug, PartialEq, Eq)]
pub struct Forwarded {
    pub from: String,
    pub envelope: Envelope,
}

/// Sends broadcasts on behalf of a register node.
pub struct BroadcastComp {
    pub nodes: Option<Vec<String>>,
    pub sender: Option<String>,
}

/// `msg` to every node of `nodes`, each time in the name of `from`.
pub open spec fn forwarded(from: String, nodes: Seq<String>, msg: AtomicRegisterMessage) -> Seq<
    Forwarded,
> {
    Seq::new(
        nodes.len(),
        |i: int| Forwarded { from, envelope: Envelope { to: nodes[i], payload: Payload::Register(msg) } },
    )
}

/// The envelopes of `sent`, without their sources.
pub open spec fn envelopes_of(sent: Seq<Forwarded>) -> Seq<Envelope> {
    Seq::new(sent.len(), |i: int| sent[i].envelope)
}

impl BroadcastComp {
    /// A broadcaster that has nothing cached.
    pub fn new() -> (comp: BroadcastComp)
        ensures
            comp.nodes is None,
            comp.sender is None,
    {
        BroadcastComp { nodes: None, sender: None }
    }

    /// Takes in the nodes and the identity of the register node for the
    /// iteration, in place of what was cached, and confirms it.
    pub fn receive_local(&mut self, info: &CacheInfo) -> (ack: CacheNodesAck)
        ensures
            final(self).sender == Some(info.sender),
            known(final(self).nodes) == info.nodes@,
            final(self).nodes is Some,
    {
        self.nodes = Some(copy_paths(&info.nodes));
        self.sender = Some(info.sender.clone());
        CacheNodesAck
    }

    /// Sends the message of `request` to every cached node, the register
    /// node itself included, each time with the register node as its source.
    /// Nothing can be sent before a `CacheInfo` was taken in.
    pub fn handle(&self, request: BroadcastRequest) -> (out: Option<Vec<Forwarded>>)
        ensures
            match (self.sender, self.nodes) {
                (Some(from), Some(nodes)) => out is Some && out->Some_0@ == forwarded(
                    from,
                    nodes@,
                    request.0,
                ),
                _ => out is None,
            },
    {
        let nodes: &Vec<String> = match &self.nodes {
            Some(list) => list,
            None => {
                return None;
            },
        };
        let from: &String = match &self.sender {
            Some(path) => path,
            None => {
                return None;
            },
        };
        let mut out: Vec<Forwarded> = Vec::new();
        let mut i: usize = 0;
        while i < nodes.len()
            invariant
                i <= nodes.len(),
                out@ == forwarded(*from, nodes@.subrange(0, i as int), request.0),
            decreases nodes.len() - i,
        {
            out.push(
                Forwarded {
                    from: from.clone(),
                    envelope: Envelope {
                        to: nodes[i].clone(),
                        payload: Payload::Register(request.0),
                    },
                },
            );
            assert(out@ =~= forwarded(*from, nodes@.subrange(0, i + 1), request.0));
            i = i + 1;
        }
        assert(nodes@.subrange(0, nodes@.len() as int) =~= nodes@);
        Some(out)
    }
}

/// What the register node asks of its surroundings.
#[derive(Clone, Debug, PartialEq, Eq)]
pub enum Output {
    /// Send the envelope over the network.
    Send(Envelope),
    /// Hand the request to the broadcaster.
    Trigger(BroadcastRequest),
}

/// What one effect asks for when broadcasts go through the broadcaster.
pub open spec fn route_one_via_port(effect: Effect, sender: Option<String>, master: Option<String>)
    -> Seq<Output> {
    match effect {
        Effect::Broadcast(m) => seq![Output::Trigger(BroadcastRequest(m))],
        _ => Seq::new(
            route_one(effect, sender, master, Seq::empty()).len(),
            |i: int| Output::Send(route_one(effect, sender, master, Seq::empty())[i]),
        ),
    }
}

/// What `effects` ask for, in order, when broadcasts go through the
/// broadcaster.
pub open spec fn route_via_port(
    effects: Seq<Effect>,
    sender: Option<String>,
    master: Option<String>,
) -> Seq<Output>
    decreases effects.len(),
{
    if effects.len() == 0 {
        Seq::empty()
    } else {
        route_via_port(effects.drop_last(), sender, master) + route_one_via_port(
            effects.last(),
            sender,
            master,
        )
    }
}

/// The envelopes that go over the network once a broadcaster that has
/// `from` and `nodes` cached has served the requests among `outputs`.
pub open spec fn on_the_wire(outputs: Seq<Output>, from: String, nodes: Seq<String>) -> Seq<
    Envelope,
>
    decreases outputs.len(),
{
    if outputs.len() == 0 {
        Seq::empty()
    } else {
        on_the_wire(outputs.drop_last(), from, nodes) + match outputs.last() {
            Output::Send(envelope) => seq![envelope],
            Output::Trigger(request) => envelopes_of(forwarded(from, nodes, request.0)),
        }
    }
}

proof fn lemma_on_the_wire_concat(a: Seq<Output>, b: Seq<Output>, from: String, nodes: Seq<String>)
    ensures
        on_the_wire(a + b, from, nodes) == on_the_wire(a, from, nodes) + on_the_wire(
            b,
            from,
            nodes,
        ),
    decreases b.len(),
{
    if b.len() == 0 {
        assert(a + b =~= a);
    } else {
        lemma_on_the_wire_concat(a, b.drop_last(), from, nodes);
        assert((a + b).drop_last() =~= a + b.drop_last());
        assert((a + b).last() == b.last());
    }
}

/// Both ways of broadcasting put the same messages on the wire, in the same
/// order: what the effects ask for through a broadcaster that has the
/// nodes cached is what they ask for when the node sends to the nodes
/// itself.
pub proof fn lemma_same_on_the_wire(
    effects: Seq<Effect>,
    sender: Option<String>,
    master: Option<String>,
    from: String,
    nodes: Seq<String>,
)
    ensures
        on_the_wire(route_via_port(effects, sender, master), from, nodes) == route(
            effects,
            sender,
            master,
            nodes,
        ),
    decreases effects.len(),
{
    if effects.len() > 0 {
        lemma_same_on_the_wire(effects.drop_last(), sender, master, from, nodes);
        let one = route_one_via_port(effects.last(), sender, master);
        lemma_on_the_wire_concat(route_via_port(effects.drop_last(), sender, master), one, from, nodes);
        let direct = route_one(effects.last(), sender, master, nodes);
        reveal_with_fuel(on_the_wire, 3);
        match effects.last() {
            Effect::Broadcast(m) => {
                assert(one.drop_last() =~= Seq::<Output>::empty());
                assert(envelopes_of(forwarded(from, nodes, m)) =~= fan_out(
                    nodes,
                    Payload::Register(m),
                ));
                assert(on_the_wire(one, from, nodes) =~= direct);
            },
            _ => {
                assert(route_one(effects.last(), sender, master, Seq::empty()) == direct);
                if one.len() == 1 {
                    assert(one.drop_last() =~= Seq::<Output>::empty());
                }
                assert(on_the_wire(one, from, nodes) =~= direct);
            },
        }
    }
}

/// Every message that the broadcaster sends carries the cached identity of
/// the register node as its source, and goes to the cached nodes in their
/// order.
pub proof fn lemma_broadcaster_keeps_identity(
    from: String,
    nodes: Seq<String>,
    msg: AtomicRegisterMessage,
)
    ensures
        forwarded(from, nodes, msg).len() == nodes.len(),
        forall|i: int|
            0 <= i < nodes.len() ==> (#[trigger] forwarded(from, nodes, msg)[i]).from == from
                && forwarded(from, nodes, msg)[i].envelope.to == nodes[i],
        envelopes_of(forwarded(from, nodes, msg)) == fan_out(nodes, Payload::Register(msg)),
{
    assert(envelopes_of(forwarded(from, nodes, msg)) =~= fan_out(nodes, Payload::Register(msg)));
}

/// A register node that leaves its broadcasts to a broadcaster.
pub struct AtomicRegisterComp {
    /// The registers and the protocol.
    pub node: RegisterNode,
    /// The coordinator, once it has sent an `Init`.
    pub master: Option<String>,
    /// Every node of the iteration, in the order of the ranks.
    pub nodes: Option<Vec<String>>,
}

/// What `receive_message` owes; as for the node that broadcasts by itself,
/// but with broadcasts handed to the broadcaster.
pub open spec fn received_via_port(
    pre: NodeModel,
    post: NodeModel,
    res: Result<Vec<Output>, ReceiveError>,
    sender: String,
    master: Option<String>,
    ser_id: u64,
    buf: Seq<u8>,
) -> bool {
    if ser_id != ATOMICREG_ID {
        res is Ok && res->Ok_0@ == Seq::<Output>::empty() && post == pre
    } else {
        match spec_deserialise(buf) {
            Err(failure) => {
                &&& res matches Err(ReceiveError::Decode(e))
                &&& e.reports(failure)
                &&& post == pre
            },
            Ok(msg) => match model_handle(pre, msg) {
                Err(refusal) => {
                    &&& res matches Err(ReceiveError::Protocol(e))
                    &&& e == refusal
                    &&& post == pre
                },
                Ok((next, effects)) => {
                    &&& res is Ok
                    &&& res->Ok_0@ == route_via_port(effects, Some(sender), master)
                    &&& post == next
                },
            },
        }
    }
}

/// What `effects` ask for, in order, when broadcasts go through the
/// broadcaster.
pub fn deliver_via_port(effects: &Vec<Effect>, sender: Option<&String>, master: &Option<String>)
    -> (out: Vec<Output>)
    ensures
        out@ == route_via_port(effects@, referent(sender), *master),
{
    let mut out: Vec<Output> = Vec::new();
    let nobody: Option<Vec<String>> = None;
    let mut i: usize = 0;
    while i < effects.len()
        invariant
            i <= effects.len(),
            nobody is None,
            out@ == route_via_port(effects@.subrange(0, i as int), referent(sender), *master),
        decreases effects.len() - i,
    {
        let ghost before = out@;
        let ghost one = route_one_via_port(effects@[i as int], referent(sender), *master);
        match effects[i] {
            Effect::Broadcast(m) => {
                out.push(Output::Trigger(BroadcastRequest(m)));
            },
            other => {
                let mut direct: Vec<Envelope> = deliver_one(other, sender, master, &nobody);
                let ghost all = direct@;
                assert(all.len() <= 1);
                match direct.pop() {
                    Some(envelope) => {
                        assert(all =~= seq![envelope]);
                        out.push(Output::Send(envelope));
                    },
                    None => {},
                }
            },
        }
        proof {
            assert(out@ =~= before + one);
            let upto = effects@.subrange(0, i + 1);
            assert(upto.drop_last() =~= effects@.subrange(0, i as int));
            assert(upto.last() == effects@[i as int]);
        }
        i = i + 1;
    }
    assert(effects@.subrange(0, effects@.len() as int) =~= effects@);
    out
}

impl AtomicRegisterComp {
    /// The invariant of the component: once an iteration is set up the
    /// coordinator is known, and the list of nodes has as many entries as the
    /// iteration has nodes.
    pub open spec fn wf(&self) -> bool {
        &&& self.node.wf()
        &&& self.node@.initialised ==> self.master is Some && self.nodes is Some && known(
            self.nodes,
        ).len() == self.node@.n
    }

    /// A component that was given no iteration yet.
    pub fn with() -> (comp: AtomicRegisterComp)
        ensures
            comp.wf(),
            comp.node@ == model_new(),
            comp.master is None,
            comp.nodes is None,
    {
        AtomicRegisterComp { node: RegisterNode::new(), master: None, nodes: None }
    }

    /// Sets the node up for the iteration of `init`.
    pub fn new_iteration(&mut self, init: &Init)
        requires
            init.nodes@.len() <= u32::MAX,
        ensures
            final(self).node.wf(),
            final(self).node@ == model_new_iteration(
                old(self).node@,
                init.init_id,
                init.rank,
                init.nodes@.len() as u32,
                init.min_key,
                init.max_key,
            ),
            final(self).master == old(self).master,
            final(self).nodes == old(self).nodes,
    {
        let n: u32 = init.nodes.len() as u32;
        self.node.new_iteration(init.init_id, init.rank, n, init.min_key, init.max_key);
    }

    /// Handles the `Init` that `sender` sent to this node, whose own path is
    /// `self_path`: the node starts the iteration with fresh registers,
    /// remembers the nodes and `sender` as its coordinator, and returns what
    /// the broadcaster is to cache. The `InitAck` is due only when the
    /// broadcaster has confirmed, so that no broadcast meets an empty cache.
    pub fn on_init(&mut self, init: Init, sender: String, self_path: String) -> (info: CacheInfo)
        requires
            init.nodes@.len() <= u32::MAX,
        ensures
            final(self).wf(),
            final(self).node@ == model_new_iteration(
                old(self).node@,
                init.init_id,
                init.rank,
                init.nodes@.len() as u32,
                init.min_key,
                init.max_key,
            ),
            final(self).master == Some(sender),
            known(final(self).nodes) == init.nodes@,
            info.sender == self_path,
            info.nodes@ == init.nodes@,
    {
        self.new_iteration(&init);
        self.nodes = Some(copy_paths(&init.nodes));
        self.master = Some(sender);
        CacheInfo { sender: self_path, nodes: init.nodes }
    }

    /// Handles the broadcaster's confirmation: the `InitAck` goes to the
    /// coordinator. Without a coordinator there is nobody to tell.
    pub fn receive_local(&self, ack: CacheNodesAck) -> (out: Option<Envelope>)
        ensures
            match self.master {
                Some(to) => out == Some(
                    Envelope { to, payload: Payload::InitAck(self.node@.run_id) },
                ),
                None => out is None,
            },
    {
        match &self.master {
            Some(to) => Some(
                Envelope { to: to.clone(), payload: Payload::InitAck(self.node.run_id()) },
            ),
            None => None,
        }
    }

    /// Handles a `Run`: the node invokes `num_reads` reads and `num_writes`
    /// writes and hands the request of each to the broadcaster. With nothing
    /// to invoke it tells the coordinator at once that it is done.
    pub fn on_run(&mut self, num_reads: u64, num_writes: u64) -> (res: Result<
        Vec<Output>,
        ProtocolError,
    >)
        requires
            old(self).wf(),
        ensures
            final(self).wf(),
            final(self).master == old(self).master,
            final(self).nodes == old(self).nodes,
            match model_run(old(self).node@, num_reads, num_writes) {
                Err(refusal) => res == Err::<Vec<Output>, ProtocolError>(refusal) && final(self).node@ == old(self).node@,
                Ok((next, effects)) => {
                    &&& res is Ok
                    &&& res->Ok_0@ == route_via_port(effects, None, old(self).master)
                    &&& final(self).node@ == next
                },
            },
    {
        match self.node.invoke_operations(num_reads, num_writes) {
            Err(e) => Err(e),
            Ok(effects) => Ok(deliver_via_port(&effects, None, &self.master)),
        }
    }

    /// Handles the bytes `buf` that `sender` sent under serialiser `ser_id`.
    ///
    /// Bytes of the register protocol are decoded and the message is handled;
    /// what it asks for is returned. The coordinator's messages come in
    /// through `on_init` and `on_run`; bytes of any other serialiser than
    /// that of the register protocol are ignored here.
    pub fn receive_message(&mut self, sender: &String, ser_id: u64, buf: &[u8]) -> (res: Result<
        Vec<Output>,
        ReceiveError,
    >)
        requires
            old(self).wf(),
        ensures
            final(self).wf(),
            final(self).master == old(self).master,
            final(self).nodes == old(self).nodes,
            received_via_port(
                old(self).node@,
                final(self).node@,
                res,
                *sender,
                old(self).master,
                ser_id,
                buf@,
            ),
    {
        if ser_id != AtomicRegisterSer.serid() {
            return Ok(Vec::new());
        }
        match AtomicRegisterSer::deserialise(buf) {
            Err(e) => Err(ReceiveError::Decode(e)),
            Ok(msg) => match self.node.handle(msg) {
                Err(e) => Err(ReceiveError::Protocol(e)),
                Ok(effects) => Ok(deliver_via_port(&effects, Some(sender), &self.master)),
            },
        }
    }
}

} // verus!
