//! The register node: the registers of a key range and the handlers that a
//! message of the protocol runs.
//!
//! A handler changes the node and returns the effects of the message. A
//! message that cannot be handled is refused with an error and changes
//! nothing.

use crate::atomicregister::messages::{Ack, AtomicRegisterMessage, Read, Value, Write};
use crate::atomicregister::model::{
    complete_read, complete_write, in_range, invocation, invoked_slot, model_handle, model_new,
    model_new_iteration, model_on_ack, model_on_read, model_on_value, model_on_write, model_run,
    request_ids_left, Effect, NodeModel, ProtocolError, Step,
};
use crate::atomicregister::readlist::ReadList;
use crate::atomicregister::register::{
    initial_register, slot_invoke_read, slot_invoke_write, slot_on_value, AckOutcome,
    AtomicRegisterState, Slot, ValueOutcome,
};
use std::collections::HashMap;
use vstd::prelude::*;

verus! {

/// The registers of one node, and where it stands in the iteration.
pub struct RegisterNode {
    initialised: bool,
    n: u32,
    rank: u32,
    min_key: u64,
    max_key: u64,
    read_count: u64,
    write_count: u64,
    current_run_id: u32,
    register_state: HashMap<u64, AtomicRegisterState>,
    register_readlist: HashMap<u64, ReadList>,
}

impl View for RegisterNode {
    type V = NodeModel;

    closed spec fn view(&self) -> NodeModel {
        NodeModel {
            initialised: self.initialised,
            run_id: self.current_run_id,
            n: self.n,
            rank: self.rank,
            min_key: self.min_key,
            max_key: self.max_key,
            read_count: self.read_count,
            write_count: self.write_count,
            slots: Map::new(
                |k: u64| self.register_state@.contains_key(k),
                |k: u64| Slot { reg: self.register_state@[k], replies: self.register_readlist@[k]@ },
            ),
        }
    }
}

/// Whether `res` and the state `post` are what `step` asks for after `pre`:
/// the next state with its effects, or the error with the state unchanged.
pub open spec fn follows(
    pre: NodeModel,
    post: NodeModel,
    res: Result<Vec<Effect>, ProtocolError>,
    step: Step,
) -> bool {
    match step {
        Ok((next, effects)) => res is Ok && res->Ok_0@ == effects && post == next,
        Err(e) => res == Err::<Vec<Effect>, ProtocolError>(e) && post == pre,
    }
}

/// The state in the middle of a run, when the first `done` keys of the range
/// have been invoked.
pub open spec fn run_progress(m: NodeModel, done: int, num_reads: u64, num_writes: u64)
    -> NodeModel {
    NodeModel {
        read_count: num_reads,
        write_count: num_writes,
        slots: Map::new(
            |k: u64| m.slots.contains_key(k),
            |k: u64| invoked_slot(m, k, done, num_reads, num_writes),
        ),
        ..m
    }
}

impl RegisterNode {
    /// The node holds a reply list for exactly the keys it holds a register
    /// for.
    pub closed spec fn maps_agree(&self) -> bool {
        forall|k: u64| #[trigger]
            self.register_state@.contains_key(k) <==> self.register_readlist@.contains_key(k)
    }

    /// The invariant of the node.
    pub open spec fn wf(&self) -> bool {
        self@.wf() && self.maps_agree()
    }

    /// A node that was given no iteration yet.
    pub fn new() -> (node: RegisterNode)
        ensures
            node@ == model_new(),
            node.wf(),
    {
        let node = RegisterNode {
            initialised: false,
            n: 0,
            rank: 0,
            min_key: 0,
            max_key: 0,
            read_count: 0,
            write_count: 0,
            current_run_id: 0,
            register_state: HashMap::new(),
            register_readlist: HashMap::new(),
        };
        assert(node@.slots =~= Map::<u64, Slot>::empty());
        node
    }

    /// The iteration that the node takes part in.
    pub fn run_id(&self) -> (id: u32)
        ensures
            id == self@.run_id,
    {
        self.current_run_id
    }

    /// Number of nodes in the iteration.
    pub fn n(&self) -> (n: u32)
        ensures
            n == self@.n,
    {
        self.n
    }

    /// Rank of this node.
    pub fn rank(&self) -> (rank: u32)
        ensures
            rank == self@.rank,
    {
        self.rank
    }

    /// The least key of the node's range.
    pub fn min_key(&self) -> (key: u64)
        ensures
            key == self@.min_key,
    {
        self.min_key
    }

    /// The greatest key of the node's range.
    pub fn max_key(&self) -> (key: u64)
        ensures
            key == self@.max_key,
    {
        self.max_key
    }

    /// Reads that were invoked and are not complete.
    pub fn read_count(&self) -> (count: u64)
        ensures
            count == self@.read_count,
    {
        self.read_count
    }

    /// Writes that were invoked and are not complete.
    pub fn write_count(&self) -> (count: u64)
        ensures
            count == self@.write_count,
    {
        self.write_count
    }

    /// Number of keys that the node holds.
    pub fn num_keys(&self) -> (count: u128)
        ensures
            count == self@.num_keys(),
    {
        if self.initialised && self.min_key <= self.max_key {
            (self.max_key - self.min_key) as u128 + 1
        } else {
            0
        }
    }

    /// The register of `key`, if the node holds one.
    pub fn register(&self, key: u64) -> (reg: Option<AtomicRegisterState>)
        ensures
            reg == (if self@.slots.contains_key(key) {
                Some(self@.slots[key].reg)
            } else {
                None
            }),
    {
        match self.register_state.get(&key) {
            Some(r) => Some(*r),
            None => None,
        }
    }

    /// Number of ranks whose reply to the operation in flight on `key` is
    /// held, if the node holds the key.
    pub fn replies(&self, key: u64) -> (count: Option<usize>)
        requires
            self.wf(),
        ensures
            count == (if self@.slots.contains_key(key) {
                Some(self@.slots[key].replies.len() as usize)
            } else {
                None
            }),
    {
        match self.register_readlist.get(&key) {
            Some(list) => Some(list.len()),
            None => None,
        }
    }

    /// Sets up iteration `init_id` for this node as node `rank` of `n`: every
    /// key of `[min_key, max_key]` gets a fresh register and an empty reply
    /// list, and what was held before is dropped. A range with
    /// `max_key < min_key` holds no key.
    pub fn new_iteration(&mut self, init_id: u32, rank: u32, n: u32, min_key: u64, max_key: u64)
        ensures
            final(self)@ == model_new_iteration(old(self)@, init_id, rank, n, min_key, max_key),
            final(self).wf(),
    {
        let mut states: HashMap<u64, AtomicRegisterState> = HashMap::new();
        let mut lists: HashMap<u64, ReadList> = HashMap::new();
        if min_key <= max_key {
            let mut key: u64 = min_key;
            loop
                invariant_except_break
                    forall|k: u64| #[trigger] states@.contains_key(k) <==> min_key <= k < key,
                invariant
                    min_key <= key <= max_key,
                    forall|k: u64| #[trigger] states@.contains_key(k) <==> lists@.contains_key(k),
                    forall|k: u64| #[trigger]
                        states@.contains_key(k) ==> states@[k] == initial_register() && lists@[k]@
                            == Map::<u32, (u32, u32, u32)>::empty(),
                ensures
                    forall|k: u64| #[trigger] states@.contains_key(k) <==> min_key <= k <= max_key,
                decreases max_key - key,
            {
                states.insert(key, AtomicRegisterState::new());
                lists.insert(key, ReadList::new());
                if key == max_key {
                    break ;
                }
                key = key + 1;
            }
        }
        self.initialised = true;
        self.current_run_id = init_id;
        self.n = n;
        self.rank = rank;
        self.min_key = min_key;
        self.max_key = max_key;
        self.register_state = states;
        self.register_readlist = lists;
        assert(self@.slots =~= model_new_iteration(
            old(self)@,
            init_id,
            rank,
            n,
            min_key,
            max_key,
        ).slots);
    }

    /// Starts a read of `key` and returns its request id.
    fn invoke_read(&mut self, key: u64) -> (rid: u32)
        requires
            old(self).wf(),
            old(self)@.slots.contains_key(key),
            old(self)@.slots[key].reg.rid < u32::MAX,
        ensures
            final(self).wf(),
            final(self)@ == old(self)@.with_slot(key, slot_invoke_read(old(self)@.slots[key])),
            rid == old(self)@.slots[key].reg.rid + 1,
    {
        let mut reg: AtomicRegisterState = *self.register_state.get(&key).unwrap();
        let mut readlist: ReadList = self.register_readlist.remove(&key).unwrap();
        reg.invoke_read(&mut readlist);
        self.register_state.insert(key, reg);
        self.register_readlist.insert(key, readlist);
        assert(self@.slots =~= old(self)@.with_slot(
            key,
            slot_invoke_read(old(self)@.slots[key]),
        ).slots);
        reg.rid
    }

    /// Starts a write of `key` and returns its request id.
    fn invoke_write(&mut self, key: u64) -> (rid: u32)
        requires
            old(self).wf(),
            old(self)@.slots.contains_key(key),
            old(self)@.slots[key].reg.rid < u32::MAX,
        ensures
            final(self).wf(),
            final(self)@ == old(self)@.with_slot(
                key,
                slot_invoke_write(old(self)@.slots[key], old(self)@.rank),
            ),
            rid == old(self)@.slots[key].reg.rid + 1,
    {
        let mut reg: AtomicRegisterState = *self.register_state.get(&key).unwrap();
        let mut readlist: ReadList = self.register_readlist.remove(&key).unwrap();
        reg.invoke_write(&mut readlist, self.rank);
        self.register_state.insert(key, reg);
        self.register_readlist.insert(key, readlist);
        assert(self@.slots =~= old(self)@.with_slot(
            key,
            slot_invoke_write(old(self)@.slots[key], old(self)@.rank),
        ).slots);
        reg.rid
    }

    /// Runs the node: `num_reads` reads and `num_writes` writes are invoked
    /// on the first keys of the range, one request each, and the requests
    /// are returned in the order of the keys.
    ///
    /// A node of even rank reads the first `num_reads` keys and writes the
    /// next `num_writes`; a node of odd rank writes first. With nothing to
    /// invoke the node is done at once.
    pub fn invoke_operations(&mut self, num_reads: u64, num_writes: u64) -> (res: Result<
        Vec<Effect>,
        ProtocolError,
    >)
        requires
            old(self).wf(),
        ensures
            final(self).wf(),
            follows(old(self)@, final(self)@, res, model_run(old(self)@, num_reads, num_writes)),
    {
        if !self.initialised {
            return Err(ProtocolError::NotInitialised);
        }
        let total: u128 = num_reads as u128 + num_writes as u128;
        if total > self.num_keys() {
            return Err(ProtocolError::InvalidWorkload);
        }
        let ghost start = old(self)@;
        let mut effects: Vec<Effect> = Vec::new();
        if total == 0 {
            self.read_count = num_reads;
            self.write_count = num_writes;
            effects.push(Effect::Done);
            assert(self@.slots =~= model_run(old(self)@, num_reads, num_writes)->Ok_0.0.slots);
            return Ok(effects);
        }
        let min_key: u64 = self.min_key;
        let last: u64 = min_key + (total - 1) as u64;
        let mut probe: u64 = min_key;
        loop
            invariant_except_break
                forall|k: u64| #[trigger]
                    start.slots.contains_key(k) && k - min_key < probe - min_key
                        ==> start.slots[k].reg.rid < u32::MAX,
            invariant
                self.wf(),
                self@ == start,
                start == old(self)@,
                start.initialised,
                start.min_key == min_key,
                total == num_reads + num_writes,
                1 <= total <= start.num_keys(),
                last == min_key + total - 1,
                min_key <= probe <= last,
            ensures
                request_ids_left(start, total as int),
            decreases last - probe,
        {
            proof {
                assert(in_range(start.min_key, start.max_key, probe));
                assert(start.slots.contains_key(probe));
            }
            match self.register(probe) {
                Some(reg) => {
                    if reg.rid == u32::MAX {
                        proof {
                            assert(start.slots.contains_key(probe) && probe - start.min_key
                                < total);
                            assert(start.slots[probe].reg.rid == u32::MAX);
                            assert(!request_ids_left(start, total as int));
                        }
                        return Err(ProtocolError::RequestIdExhausted);
                    }
                },
                None => {},
            }
            if probe == last {
                break ;
            }
            probe = probe + 1;
        }
        self.read_count = num_reads;
        self.write_count = num_writes;
        let mut key: u64 = min_key;
        assert(self@.slots =~= run_progress(start, 0, num_reads, num_writes).slots);
        loop
            invariant_except_break
                effects@ == Seq::new((key - min_key) as nat, |i: int| invocation(start, i)),
                self@ == run_progress(start, key - min_key, num_reads, num_writes),
            invariant
                start.wf(),
                start.initialised,
                start.min_key == min_key,
                request_ids_left(start, total as int),
                total == num_reads + num_writes,
                1 <= total <= start.num_keys(),
                last == min_key + total - 1,
                min_key <= key <= last,
                self.wf(),
            ensures
                effects@ == Seq::new(total as nat, |i: int| invocation(start, i)),
                self@ == run_progress(start, total as int, num_reads, num_writes),
            decreases last - key,
        {
            let is_read: bool = if self.rank % 2 == 0 {
                key - min_key < num_reads
            } else {
                key - min_key >= num_writes
            };
            proof {
                assert(in_range(start.min_key, start.max_key, key));
                assert(start.slots.contains_key(key));
                assert(self@.slots[key] == start.slots[key]);
            }
            let rid: u32 = if is_read {
                self.invoke_read(key)
            } else {
                self.invoke_write(key)
            };
            effects.push(
                Effect::Broadcast(
                    AtomicRegisterMessage::Read(Read { run_id: self.current_run_id, rid, key }),
                ),
            );
            proof {
                let done = key - min_key;
                assert(self@.slots =~= run_progress(
                    start,
                    done + 1,
                    num_reads,
                    num_writes,
                ).slots);
                assert(effects@ =~= Seq::new((done + 1) as nat, |i: int| invocation(start, i)));
            }
            if key == last {
                break ;
            }
            key = key + 1;
        }
        Ok(effects)
    }

    /// Counts a completed read of `key` and says what follows from it.
    fn read_response(&mut self, key: u64, value: u32) -> (effects: Vec<Effect>)
        requires
            old(self).wf(),
            old(self)@.read_count > 0,
        ensures
            final(self).wf(),
            complete_read(old(self)@, key, value) == Ok::<(NodeModel, Seq<Effect>), ProtocolError>(
                (final(self)@, effects@),
            ),
    {
        self.read_count = self.read_count - 1;
        let mut effects: Vec<Effect> = Vec::new();
        effects.push(Effect::ReadResponse { key, value });
        if self.read_count == 0 && self.write_count == 0 {
            effects.push(Effect::Done);
        }
        assert(effects@ =~= complete_read(old(self)@, key, value)->Ok_0.1);
        effects
    }

    /// Counts a completed write of `key` and says what follows from it.
    fn write_response(&mut self, key: u64) -> (effects: Vec<Effect>)
        requires
            old(self).wf(),
            old(self)@.write_count > 0,
        ensures
            final(self).wf(),
            complete_write(old(self)@, key) == Ok::<(NodeModel, Seq<Effect>), ProtocolError>(
                (final(self)@, effects@),
            ),
    {
        self.write_count = self.write_count - 1;
        let mut effects: Vec<Effect> = Vec::new();
        effects.push(Effect::WriteResponse { key });
        if self.read_count == 0 && self.write_count == 0 {
            effects.push(Effect::Done);
        }
        assert(effects@ =~= complete_write(old(self)@, key)->Ok_0.1);
        effects
    }

    /// Handles a `Read`: the node reports what it stores for the key.
    ///
    /// A request of another iteration is dropped. One of this iteration for
    /// a key that the node does not hold is refused.
    pub fn on_read(&self, r: Read) -> (res: Result<Vec<Effect>, ProtocolError>)
        requires
            self.wf(),
        ensures
            follows(self@, self@, res, model_on_read(self@, r)),
    {
        let mut effects: Vec<Effect> = Vec::new();
        if r.run_id != self.current_run_id {
            return Ok(effects);
        }
        match self.register_state.get(&r.key) {
            None => Err(ProtocolError::MissingKey(r.key)),
            Some(reg) => {
                effects.push(Effect::Reply(AtomicRegisterMessage::Value(reg.on_read(r, self.rank))));
                assert(effects@ =~= model_on_read(self@, r)->Ok_0.1);
                Ok(effects)
            },
        }
    }

    /// Handles a `Value`: the reply is recorded, and once more than half of
    /// the nodes have replied the read phase ends. A read whose replies all
    /// carry one `ts` is complete; otherwise a write is broadcast.
    ///
    /// A reply of another iteration or to another request is dropped.
    pub fn on_value(&mut self, v: Value) -> (res: Result<Vec<Effect>, ProtocolError>)
        requires
            old(self).wf(),
        ensures
            final(self).wf(),
            follows(old(self)@, final(self)@, res, model_on_value(old(self)@, v)),
    {
        let mut effects: Vec<Effect> = Vec::new();
        if v.run_id != self.current_run_id {
            return Ok(effects);
        }
        let mut reg: AtomicRegisterState = match self.register_state.get(&v.key) {
            None => {
                return Err(ProtocolError::MissingKey(v.key));
            },
            Some(r) => *r,
        };
        let mut readlist: ReadList = self.register_readlist.remove(&v.key).unwrap();
        let ghost slot = old(self)@.slots[v.key];
        assert(slot.replies == readlist@);
        if self.read_count == 0 && reg.value_completes_read(&readlist, v, self.n, self.rank) {
            self.register_readlist.insert(v.key, readlist);
            assert(self@.slots =~= old(self)@.slots);
            return Err(ProtocolError::UnexpectedCompletion);
        }
        let outcome: ValueOutcome = reg.on_value(&mut readlist, v, self.n, self.rank);
        self.register_readlist.insert(v.key, readlist);
        let ghost next = slot_on_value(slot, v, self.n, self.rank).0;
        match outcome {
            ValueOutcome::Stale => {
                assert(self@.slots =~= old(self)@.slots);
                Ok(effects)
            },
            ValueOutcome::Exhausted => {
                assert(self@.slots =~= old(self)@.slots);
                Err(ProtocolError::TimestampExhausted)
            },
            ValueOutcome::Collected => {
                self.register_state.insert(v.key, reg);
                assert(self@.slots =~= old(self)@.with_slot(v.key, next).slots);
                Ok(effects)
            },
            ValueOutcome::ReadComplete(value) => {
                self.register_state.insert(v.key, reg);
                assert(self@.slots =~= old(self)@.with_slot(v.key, next).slots);
                Ok(self.read_response(v.key, value))
            },
            ValueOutcome::Impose(w) => {
                self.register_state.insert(v.key, reg);
                assert(self@.slots =~= old(self)@.with_slot(v.key, next).slots);
                effects.push(Effect::Broadcast(AtomicRegisterMessage::Write(w)));
                assert(effects@ =~= seq![Effect::Broadcast(AtomicRegisterMessage::Write(w))]);
                Ok(effects)
            },
        }
    }

    /// Handles a `Write`: the node adopts it if its tag is greater than the
    /// stored one, and acknowledges it in any case, also where the write is
    /// of another iteration and changes nothing.
    pub fn on_write(&mut self, w: Write) -> (res: Result<Vec<Effect>, ProtocolError>)
        requires
            old(self).wf(),
        ensures
            final(self).wf(),
            follows(old(self)@, final(self)@, res, model_on_write(old(self)@, w)),
    {
        let mut effects: Vec<Effect> = Vec::new();
        if w.run_id == self.current_run_id {
            let mut reg: AtomicRegisterState = match self.register_state.get(&w.key) {
                None => {
                    return Err(ProtocolError::MissingKey(w.key));
                },
                Some(r) => *r,
            };
            let _ = reg.on_write(w);
            self.register_state.insert(w.key, reg);
            assert(self@.slots =~= old(self)@.with_register(w.key, reg).slots);
        }
        effects.push(
            Effect::Reply(AtomicRegisterMessage::Ack(Ack { run_id: w.run_id, key: w.key, rid: w.rid })),
        );
        assert(effects@ =~= model_on_write(old(self)@, w)->Ok_0.1);
        Ok(effects)
    }

    /// Handles an `Ack`: it is counted, and once more than half of the nodes
    /// have acknowledged the operation is complete.
    ///
    /// An ack of another iteration or to another request is dropped.
    pub fn on_ack(&mut self, a: Ack) -> (res: Result<Vec<Effect>, ProtocolError>)
        requires
            old(self).wf(),
        ensures
            final(self).wf(),
            follows(old(self)@, final(self)@, res, model_on_ack(old(self)@, a)),
    {
        let effects: Vec<Effect> = Vec::new();
        if a.run_id != self.current_run_id {
            return Ok(effects);
        }
        let mut reg: AtomicRegisterState = match self.register_state.get(&a.key) {
            None => {
                return Err(ProtocolError::MissingKey(a.key));
            },
            Some(r) => *r,
        };
        let outcome: AckOutcome = reg.on_ack(a, self.n);
        match outcome {
            AckOutcome::Stale => Ok(effects),
            AckOutcome::Counted => {
                self.register_state.insert(a.key, reg);
                assert(self@.slots =~= old(self)@.with_register(a.key, reg).slots);
                Ok(effects)
            },
            AckOutcome::ReadComplete(value) => {
                if self.read_count == 0 {
                    return Err(ProtocolError::UnexpectedCompletion);
                }
                self.register_state.insert(a.key, reg);
                assert(self@.slots =~= old(self)@.with_register(a.key, reg).slots);
                Ok(self.read_response(a.key, value))
            },
            AckOutcome::WriteComplete => {
                if self.write_count == 0 {
                    return Err(ProtocolError::UnexpectedCompletion);
                }
                self.register_state.insert(a.key, reg);
                assert(self@.slots =~= old(self)@.with_register(a.key, reg).slots);
                Ok(self.write_response(a.key))
            },
        }
    }

    /// Handles a message of the protocol.
    pub fn handle(&mut self, msg: AtomicRegisterMessage) -> (res: Result<
        Vec<Effect>,
        ProtocolError,
    >)
        requires
            old(self).wf(),
        ensures
            final(self).wf(),
            follows(old(self)@, final(self)@, res, model_handle(old(self)@, msg)),
    {
        match msg {
            AtomicRegisterMessage::Read(r) => self.on_read(r),
            AtomicRegisterMessage::Value(v) => self.on_value(v),
            AtomicRegisterMessage::Write(w) => self.on_write(w),
            AtomicRegisterMessage::Ack(a) => self.on_ack(a),
        }
    }
}

} // verus!
