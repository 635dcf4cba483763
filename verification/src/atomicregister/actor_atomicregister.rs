//! The register node that sends its broadcasts itself.

use crate::atomicregister::codec::{spec_deserialise, AtomicRegisterSer};
use crate::atomicregister::config::{
    client_conf_text, conf_read, join_client_conf, split_client_conf, AtomicRegisterMaster,
    BenchmarkError, LABEL,
};

use crate::atomicregister::dispatch::{
    deliver, fan_out, known, route, Envelope, Payload, ReceiveError,
};
use crate::atomicregister::messages::AtomicRegisterMessage;
use crate::atomicregister::model::{
    model_handle, model_new, model_new_iteration, model_run, Effect, NodeModel, ProtocolError,
};
use crate::atomicregister::node::RegisterNode;
use crate::partitioning_actor::Init;
use crate::serialiser_ids::ATOMICREG_ID;
use vstd::prelude::*;

verus! {

/// The benchmark of the register node that broadcasts by itself.
#[derive(Default)]
pub struct AtomicRegister;

impl AtomicRegister {
    /// Name of the benchmark.
    pub fn label() -> (name: &'static str)
        ensures
            name@ == LABEL@,
    {
        LABEL
    }

    /// A master that was not set up yet.
    pub fn new_master() -> (master: AtomicRegisterMaster)
        ensures
            master@ == AtomicRegisterMaster::spec_new(),
    {
        AtomicRegisterMaster::new()
    }

    /// Splits a client configuration, which is written `read,write`, into
    /// its two fields. A string with no comma or with more than one is no
    /// client configuration.
    pub fn str_to_client_conf(str: &str) -> (res: Result<(String, String), BenchmarkError>)
        ensures
            conf_read(str@, res),
    {
        split_client_conf(str)
    }

    /// Writes a client configuration out.
    pub fn client_conf_to_str(read_workload: &str, write_workload: &str) -> (text: String)
        ensures
            text@ == client_conf_text(read_workload@, write_workload@),
    {
        join_client_conf(read_workload, write_workload)
    }
}

/// A register node with the paths it sends to.
pub struct AtomicRegisterActor {
    /// The registers and the protocol.
    pub node: RegisterNode,
    /// The coordinator, once it has sent an `Init`.
    pub master: Option<String>,
    /// Every node of the iteration, in the order of the ranks.
    pub nodes: Option<Vec<String>>,
}

/// What `receive_message` owes for bytes `buf` under serialiser `ser_id`
/// from `sender`, in state `pre` with the paths `master` and `nodes`.
///
/// Bytes of another serialiser are ignored. Bytes that do not decode, and
/// messages that the node refuses, give an error and change nothing.
/// Otherwise the node takes the step of the message and sends what its
/// effects ask for.
pub open spec fn received(
    pre: NodeModel,
    post: NodeModel,
    res: Result<Vec<Envelope>, ReceiveError>,
    sender: String,
    master: Option<String>,
    nodes: Seq<String>,
    ser_id: u64,
    buf: Seq<u8>,
) -> bool {
    if ser_id != ATOMICREG_ID {
        res is Ok && res->Ok_0@ == Seq::<Envelope>::empty() && post == pre
    } else {
        match spec_deserialise(buf) {
            Err(failure) => {
                &&& res matches Err(ReceiveError::Decode(e))
                &&& e.reports(failure)
                &&& post == pre
            },
            Ok(msg) => match model_handle(pre, msg) {
                Err(refusal) => {
                    &&& res matches Err(ReceiveError::Protocol(e))
                    &&& e == refusal
                    &&& post == pre
                },
                Ok((next, effects)) => {
                    &&& res is Ok
                    &&& res->Ok_0@ == route(effects, Some(sender), master, nodes)
                    &&& post == next
                },
            },
        }
    }
}

impl AtomicRegisterActor {
    /// The invariant of the actor: once an iteration is set up the
    /// coordinator is known, and the list of nodes has as many entries as the
    /// iteration has nodes.
    pub open spec fn wf(&self) -> bool {
        &&& self.node.wf()
        &&& self.node@.initialised ==> self.master is Some && self.nodes is Some && known(
            self.nodes,
        ).len() == self.node@.n
    }

    /// An actor that was given no iteration yet.
    pub fn with() -> (actor: AtomicRegisterActor)
        ensures
            actor.wf(),
            actor.node@ == model_new(),
            actor.master is None,
            actor.nodes is None,
    {
        AtomicRegisterActor { node: RegisterNode::new(), master: None, nodes: None }
    }

    /// Sets the node up for the iteration of `init`.
    pub fn new_iteration(&mut self, init: &Init)
        requires
            init.nodes@.len() <= u32::MAX,
        ensures
            final(self).node.wf(),
            final(self).node@ == model_new_iteration(
                old(self).node@,
                init.init_id,
                init.rank,
                init.nodes@.len() as u32,
                init.min_key,
                init.max_key,
            ),
            final(self).master == old(self).master,
            final(self).nodes == old(self).nodes,
    {
        let n: u32 = init.nodes.len() as u32;
        self.node.new_iteration(init.init_id, init.rank, n, init.min_key, init.max_key);
    }

    /// Handles the `Init` that `sender` sent: the node starts the iteration
    /// with fresh registers, remembers the nodes and `sender` as its
    /// coordinator, and answers with an `InitAck`.
    pub fn on_init(&mut self, init: Init, sender: String) -> (out: Vec<Envelope>)
        requires
            init.nodes@.len() <= u32::MAX,
        ensures
            final(self).wf(),
            final(self).node@ == model_new_iteration(
                old(self).node@,
                init.init_id,
                init.rank,
                init.nodes@.len() as u32,
                init.min_key,
                init.max_key,
            ),
            final(self).master == Some(sender),
            known(final(self).nodes) == init.nodes@,
            out@ == seq![Envelope { to: sender, payload: Payload::InitAck(init.init_id) }],
    {
        self.new_iteration(&init);
        let mut out: Vec<Envelope> = Vec::new();
        out.push(Envelope { to: sender.clone(), payload: Payload::InitAck(self.node.run_id()) });
        self.nodes = Some(init.nodes);
        self.master = Some(sender);
        assert(out@ =~= seq![Envelope { to: sender, payload: Payload::InitAck(init.init_id) }]);
        out
    }

    /// Handles a `Run`: the node invokes `num_reads` reads and `num_writes`
    /// writes and broadcasts the request of each. With nothing to invoke it
    /// tells the coordinator at once that it is done.
    pub fn on_run(&mut self, num_reads: u64, num_writes: u64) -> (res: Result<
        Vec<Envelope>,
        ProtocolError,
    >)
        requires
            old(self).wf(),
        ensures
            final(self).wf(),
            final(self).master == old(self).master,
            final(self).nodes == old(self).nodes,
            match model_run(old(self).node@, num_reads, num_writes) {
                Err(refusal) => res == Err::<Vec<Envelope>, ProtocolError>(refusal) && final(self).node@ == old(self).node@,
                Ok((next, effects)) => {
                    &&& res is Ok
                    &&& res->Ok_0@ == route(effects, None, old(self).master, known(old(self).nodes))
                    &&& final(self).node@ == next
                },
            },
    {
        match self.node.invoke_operations(num_reads, num_writes) {
            Err(e) => Err(e),
            Ok(effects) => Ok(deliver(&effects, None, &self.master, &self.nodes)),
        }
    }

    /// `msg` addressed to every node of the iteration, this one included.
    pub fn bcast(&self, msg: AtomicRegisterMessage) -> (out: Vec<Envelope>)
        ensures
            out@ == fan_out(known(self.nodes), Payload::Register(msg)),
    {
        let mut effects: Vec<Effect> = Vec::new();
        effects.push(Effect::Broadcast(msg));
        let out = deliver(&effects, None, &self.master, &self.nodes);
        proof {
            assert(effects@.drop_last() =~= Seq::<Effect>::empty());
            reveal_with_fuel(route, 2);
        }
        out
    }

    /// Handles the bytes `buf` that `sender` sent under serialiser `ser_id`.
    ///
    /// Bytes of the register protocol are decoded and the message is handled;
    /// what it asks to be sent is returned. The coordinator's messages come
    /// in through `on_init` and `on_run`; bytes of any other serialiser than
    /// that of the register protocol are ignored here.
    pub fn receive_message(&mut self, sender: &String, ser_id: u64, buf: &[u8]) -> (res: Result<
        Vec<Envelope>,
        ReceiveError,
    >)
        requires
            old(self).wf(),
        ensures
            final(self).wf(),
            final(self).master == old(self).master,
            final(self).nodes == old(self).nodes,
            received(
                old(self).node@,
                final(self).node@,
                res,
                *sender,
                old(self).master,
                known(old(self).nodes),
                ser_id,
                buf@,
            ),
    {
        if ser_id != AtomicRegisterSer.serid() {
            return Ok(Vec::new());
        }
        match AtomicRegisterSer::deserialise(buf) {
            Err(e) => Err(ReceiveError::Decode(e)),
            Ok(msg) => match self.node.handle(msg) {
                Err(e) => Err(ReceiveError::Protocol(e)),
                Ok(effects) => Ok(deliver(&effects, Some(sender), &self.master, &self.nodes)),
            },
        }
    }
}

} // verus!
