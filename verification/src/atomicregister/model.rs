//! The register node as a state machine: a state, an event, the next state
//! and the effects that the event has.
//!
//! Everything in this file is mathematics. The executable node is held to it
//! handler by handler, and the laws of the protocol are proved about it.

use crate::atomicregister::messages::{Ack, AtomicRegisterMessage, Read, Value, Write};
use crate::atomicregister::register::{
    ack_of, initial_slot, register_on_ack, register_on_write, reply_to_read, slot_invoke_read,
    slot_invoke_write, slot_on_value, slot_wf, AckOutcome, AtomicRegisterState, Slot,
    ValueOutcome,
};
use vstd::prelude::*;

verus! {

/// What handling an event asks of the node's surroundings.
#[derive(Clone, Copy, Debug, PartialEq, Eq, Structural)]
pub enum Effect {
    /// Send the message to the sender of the message that was handled.
    Reply(AtomicRegisterMessage),
    /// Send the message to every node of the iteration, this one included.
    Broadcast(AtomicRegisterMessage),
    /// A read of `key` is complete and returned `value`.
    ReadResponse { key: u64, value: u32 },
    /// A write of `key` is complete.
    WriteResponse { key: u64 },
    /// Every operation of the iteration is complete: tell the coordinator.
    Done,
}

/// Why an event was refused. A refused event leaves the node as it was.
#[derive(Clone, Copy, Debug, PartialEq, Eq, Structural)]
pub enum ProtocolError {
    /// The message is of the current iteration but names a key that this
    /// node holds no register for.
    MissingKey(u64),
    /// A quorum has replied to a write, and the greatest `ts` among the
    /// replies is the greatest there is: no greater tag can be installed.
    TimestampExhausted,
    /// A key that the run would invoke has used up its request ids.
    RequestIdExhausted,
    /// An operation completed although none of its kind was pending.
    UnexpectedCompletion,
    /// More operations were asked for than the node has keys.
    InvalidWorkload,
    /// The node was asked to run before it was given an iteration.
    NotInitialised,
}

/// The state of a register node.
pub struct NodeModel {
    /// Whether an iteration was set up.
    pub initialised: bool,
    /// The iteration that the node takes part in.
    pub run_id: u32,
    /// Number of nodes in the iteration.
    pub n: u32,
    /// Rank of this node among them.
    pub rank: u32,
    pub min_key: u64,
    pub max_key: u64,
    /// Reads that were invoked and are not complete.
    pub read_count: u64,
    /// Writes that were invoked and are not complete.
    pub write_count: u64,
    /// The register of each key, with the replies collected for it.
    pub slots: Map<u64, Slot>,
}

/// The next state and the effects, or the reason for a refusal.
pub type Step = Result<(NodeModel, Seq<Effect>), ProtocolError>;

/// `key` lies in the range `[min_key, max_key]`.
pub open spec fn in_range(min_key: u64, max_key: u64, key: u64) -> bool {
    min_key <= key <= max_key
}

/// Number of keys in `[min_key, max_key]`; none if `max_key < min_key`.
pub open spec fn range_len(min_key: u64, max_key: u64) -> nat {
    if min_key <= max_key {
        (max_key - min_key + 1) as nat
    } else {
        0
    }
}

impl NodeModel {
    /// Number of keys that the node holds.
    pub open spec fn num_keys(self) -> nat {
        if self.initialised {
            range_len(self.min_key, self.max_key)
        } else {
            0
        }
    }

    /// What every reachable state satisfies: the node holds a slot for
    /// exactly the keys of its range, and each slot is well formed.
    pub open spec fn wf(self) -> bool {
        &&& forall|k: u64| #[trigger]
            self.slots.contains_key(k) <==> self.initialised && in_range(
                self.min_key,
                self.max_key,
                k,
            )
        &&& forall|k: u64| #[trigger] self.slots.contains_key(k) ==> slot_wf(self.slots[k], self.n)
    }

    /// The state with the slot of `key` replaced.
    pub open spec fn with_slot(self, key: u64, slot: Slot) -> NodeModel {
        NodeModel { slots: self.slots.insert(key, slot), ..self }
    }

    /// The state with the register of `key` replaced and its replies kept.
    pub open spec fn with_register(self, key: u64, reg: AtomicRegisterState) -> NodeModel {
        self.with_slot(key, Slot { reg, replies: self.slots[key].replies })
    }

    /// Whether no operation is pending.
    pub open spec fn idle(self) -> bool {
        self.read_count == 0 && self.write_count == 0
    }
}

/// A node that was given no iteration yet: it holds no key.
pub open spec fn model_new() -> NodeModel {
    NodeModel {
        initialised: false,
        run_id: 0,
        n: 0,
        rank: 0,
        min_key: 0,
        max_key: 0,
        read_count: 0,
        write_count: 0,
        slots: Map::empty(),
    }
}

/// The node at the start of iteration `init_id`, as node `rank` of `n`, with
/// a fresh register for every key of `[min_key, max_key]`. Nothing of an
/// earlier iteration is kept but the pending counts, which the next run sets.
pub open spec fn model_new_iteration(
    m: NodeModel,
    init_id: u32,
    rank: u32,
    n: u32,
    min_key: u64,
    max_key: u64,
) -> NodeModel {
    NodeModel {
        initialised: true,
        run_id: init_id,
        n,
        rank,
        min_key,
        max_key,
        read_count: m.read_count,
        write_count: m.write_count,
        slots: Map::new(|k: u64| in_range(min_key, max_key, k), |k: u64| initial_slot()),
    }
}

/// Whether the `i`-th key of the range gets a read when a node of rank
/// `rank` runs `num_reads` reads and `num_writes` writes: a node of even rank
/// reads the first `num_reads` keys and writes the next `num_writes`; a node
/// of odd rank writes the first `num_writes` and reads the next `num_reads`.
pub open spec fn reads_at(rank: u32, i: int, num_reads: u64, num_writes: u64) -> bool {
    if rank % 2 == 0 {
        i < num_reads
    } else {
        i >= num_writes
    }
}

/// The slot of `key` after the first `count` keys of the range were invoked.
pub open spec fn invoked_slot(m: NodeModel, key: u64, count: int, num_reads: u64, num_writes: u64)
    -> Slot {
    if key - m.min_key >= count {
        m.slots[key]
    } else if reads_at(m.rank, key - m.min_key, num_reads, num_writes) {
        slot_invoke_read(m.slots[key])
    } else {
        slot_invoke_write(m.slots[key], m.rank)
    }
}

/// The request that opens the operation on the `i`-th key of the range.
pub open spec fn invocation(m: NodeModel, i: int) -> Effect {
    let key = (m.min_key + i) as u64;
    Effect::Broadcast(
        AtomicRegisterMessage::Read(
            Read { run_id: m.run_id, key, rid: (m.slots[key].reg.rid + 1) as u32 },
        ),
    )
}

/// Whether each of the first `total` keys of the range has a request id
/// left for one more operation.
pub open spec fn request_ids_left(m: NodeModel, total: int) -> bool {
    forall|k: u64| #[trigger]
        m.slots.contains_key(k) && k - m.min_key < total ==> m.slots[k].reg.rid < u32::MAX
}

/// Running the node: it invokes `num_reads` reads and `num_writes` writes on
/// the first `num_reads + num_writes` keys of its range, one request each, in
/// the order of the keys. With nothing to invoke it is done at once.
///
/// A run is refused before the node has an iteration, with more operations
/// than keys, and where a key that it would invoke has no request id left.
pub open spec fn model_run(m: NodeModel, num_reads: u64, num_writes: u64) -> Step {
    let total = num_reads + num_writes;
    if !m.initialised {
        Err(ProtocolError::NotInitialised)
    } else if total > m.num_keys() {
        Err(ProtocolError::InvalidWorkload)
    } else if !request_ids_left(m, total) {
        Err(ProtocolError::RequestIdExhausted)
    } else {
        Ok(
            (
                NodeModel {
                    read_count: num_reads,
                    write_count: num_writes,
                    slots: Map::new(
                        |k: u64| m.slots.contains_key(k),
                        |k: u64| invoked_slot(m, k, total, num_reads, num_writes),
                    ),
                    ..m
                },
                if total == 0 {
                    seq![Effect::Done]
                } else {
                    Seq::new(total as nat, |i: int| invocation(m, i))
                },
            ),
        )
    }
}

/// What a completion is followed by: the notice to the coordinator, if
/// nothing is pending any more.
pub open spec fn with_done(m: NodeModel, completion: Effect) -> Seq<Effect> {
    if m.idle() {
        seq![completion, Effect::Done]
    } else {
        seq![completion]
    }
}

/// A read of `key` completed with `value` in state `m`.
pub open spec fn complete_read(m: NodeModel, key: u64, value: u32) -> Step {
    if m.read_count == 0 {
        Err(ProtocolError::UnexpectedCompletion)
    } else {
        let next = NodeModel { read_count: (m.read_count - 1) as u64, ..m };
        Ok((next, with_done(next, Effect::ReadResponse { key, value })))
    }
}

/// A write of `key` completed in state `m`.
pub open spec fn complete_write(m: NodeModel, key: u64) -> Step {
    if m.write_count == 0 {
        Err(ProtocolError::UnexpectedCompletion)
    } else {
        let next = NodeModel { write_count: (m.write_count - 1) as u64, ..m };
        Ok((next, with_done(next, Effect::WriteResponse { key })))
    }
}

/// A `Read` reached the node: it reports what it stores for the key.
pub open spec fn model_on_read(m: NodeModel, r: Read) -> Step {
    if r.run_id != m.run_id {
        Ok((m, Seq::empty()))
    } else if !m.slots.contains_key(r.key) {
        Err(ProtocolError::MissingKey(r.key))
    } else {
        Ok(
            (
                m,
                seq![
                    Effect::Reply(
                        AtomicRegisterMessage::Value(reply_to_read(m.slots[r.key].reg, r, m.rank)),
                    ),
                ],
            ),
        )
    }
}

/// A `Value` reached the node.
pub open spec fn model_on_value(m: NodeModel, v: Value) -> Step {
    if v.run_id != m.run_id {
        Ok((m, Seq::empty()))
    } else if !m.slots.contains_key(v.key) {
        Err(ProtocolError::MissingKey(v.key))
    } else {
        let (slot, outcome) = slot_on_value(m.slots[v.key], v, m.n, m.rank);
        match outcome {
            ValueOutcome::Stale => Ok((m, Seq::empty())),
            ValueOutcome::Exhausted => Err(ProtocolError::TimestampExhausted),
            ValueOutcome::Collected => Ok((m.with_slot(v.key, slot), Seq::empty())),
            ValueOutcome::ReadComplete(value) => complete_read(
                m.with_slot(v.key, slot),
                v.key,
                value,
            ),
            ValueOutcome::Impose(w) => Ok(
                (
                    m.with_slot(v.key, slot),
                    seq![Effect::Broadcast(AtomicRegisterMessage::Write(w))],
                ),
            ),
        }
    }
}

/// A `Write` reached the node. It is acknowledged whether or not it was
/// adopted, and even if it is of another iteration.
pub open spec fn model_on_write(m: NodeModel, w: Write) -> Step {
    let ack = seq![Effect::Reply(AtomicRegisterMessage::Ack(ack_of(w)))];
    if w.run_id != m.run_id {
        Ok((m, ack))
    } else if !m.slots.contains_key(w.key) {
        Err(ProtocolError::MissingKey(w.key))
    } else {
        Ok((m.with_register(w.key, register_on_write(m.slots[w.key].reg, w)), ack))
    }
}

/// An `Ack` reached the node.
pub open spec fn model_on_ack(m: NodeModel, a: Ack) -> Step {
    if a.run_id != m.run_id {
        Ok((m, Seq::empty()))
    } else if !m.slots.contains_key(a.key) {
        Err(ProtocolError::MissingKey(a.key))
    } else {
        let (reg, outcome) = register_on_ack(m.slots[a.key].reg, a, m.n);
        match outcome {
            AckOutcome::Stale => Ok((m, Seq::empty())),
            AckOutcome::Counted => Ok((m.with_register(a.key, reg), Seq::empty())),
            AckOutcome::ReadComplete(value) => complete_read(
                m.with_register(a.key, reg),
                a.key,
                value,
            ),
            AckOutcome::WriteComplete => complete_write(m.with_register(a.key, reg), a.key),
        }
    }
}

/// A message of the protocol reached the node.
pub open spec fn model_handle(m: NodeModel, msg: AtomicRegisterMessage) -> Step {
    match msg {
        AtomicRegisterMessage::Read(r) => model_on_read(m, r),
        AtomicRegisterMessage::Value(v) => model_on_value(m, v),
        AtomicRegisterMessage::Write(w) => model_on_write(m, w),
        AtomicRegisterMessage::Ack(a) => model_on_ack(m, a),
    }
}

/// The state after a step: the next state, or the old one after a refusal.
pub open spec fn state_after(m: NodeModel, step: Step) -> NodeModel {
    match step {
        Ok((next, _)) => next,
        Err(_) => m,
    }
}

/// The effects of a step; a refusal has none.
pub open spec fn effects_of(step: Step) -> Seq<Effect> {
    match step {
        Ok((_, effects)) => effects,
        Err(_) => Seq::empty(),
    }
}

/// Handling a message keeps the state well formed.
pub proof fn lemma_handle_keeps_wf(m: NodeModel, msg: AtomicRegisterMessage)
    requires
        m.wf(),
    ensures
        state_after(m, model_handle(m, msg)).wf(),
{
    let next = state_after(m, model_handle(m, msg));
    match msg {
        AtomicRegisterMessage::Read(r) => {},
        AtomicRegisterMessage::Value(v) => {
            if v.run_id == m.run_id && m.slots.contains_key(v.key) {
                lemma_slot_on_value_keeps_wf(m.slots[v.key], v, m.n, m.rank);
                let slot = slot_on_value(m.slots[v.key], v, m.n, m.rank).0;
                assert(m.with_slot(v.key, slot).wf());
            }
        },
        AtomicRegisterMessage::Write(w) => {},
        AtomicRegisterMessage::Ack(a) => {
            if a.run_id == m.run_id && m.slots.contains_key(a.key) {
                let reg = register_on_ack(m.slots[a.key].reg, a, m.n).0;
                assert(m.with_register(a.key, reg).wf());
            }
        },
    }
}

/// Taking in a reply keeps a slot well formed and its request id unchanged.
pub proof fn lemma_slot_on_value_keeps_wf(s: Slot, v: Value, n: u32, rank: u32)
    requires
        slot_wf(s, n),
    ensures
        slot_wf(slot_on_value(s, v, n, rank).0, n),
        slot_on_value(s, v, n, rank).0.reg.rid == s.reg.rid,
{
}

/// Running the node keeps the state well formed.
pub proof fn lemma_run_keeps_wf(m: NodeModel, num_reads: u64, num_writes: u64)
    requires
        m.wf(),
    ensures
        state_after(m, model_run(m, num_reads, num_writes)).wf(),
{
}

/// A new iteration starts from a well-formed state.
pub proof fn lemma_new_iteration_wf(
    m: NodeModel,
    init_id: u32,
    rank: u32,
    n: u32,
    min_key: u64,
    max_key: u64,
)
    ensures
        model_new_iteration(m, init_id, rank, n, min_key, max_key).wf(),
        model_new().wf(),
{
}

} // verus!
