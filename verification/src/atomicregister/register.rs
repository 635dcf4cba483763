//! What a node keeps for one key, and how each message changes it.
//!
//! The transitions are stated on a `Slot`: the register of a key together
//! with the replies collected for its operation in flight.

use crate::atomicregister::messages::{Ack, Read, Value, Write};
use crate::atomicregister::readlist::{max_stamp, ReadList, Stamp};
use vstd::prelude::*;

verus! {

/// The register of one key on one node, with the bookkeeping of the operation
/// that the node has in flight on that key.
#[derive(Clone, Copy, Debug, PartialEq, Eq, Structural)]
pub struct AtomicRegisterState {
    /// Sequence number of the stored tag.
    pub ts: u32,
    /// Rank of the writer of the stored tag.
    pub wr: u32,
    /// The stored value.
    pub value: u32,
    /// Acks received in the current write phase.
    pub acks: u32,
    /// The value chosen by the read phase.
    pub readval: u32,
    /// The value that the current write installs.
    pub writeval: u32,
    /// Request id of the operation in flight; 0 before the first.
    pub rid: u32,
    /// Whether the operation in flight is a read.
    pub reading: bool,
    /// `ts` of the first reply of the current read phase.
    pub first_received_ts: u32,
    /// Whether every reply seen so far carried `first_received_ts`.
    pub skip_impose: bool,
}

/// A register with the replies collected for it.
pub struct Slot {
    pub reg: AtomicRegisterState,
    pub replies: Map<u32, Stamp>,
}

/// What became of a `Value`.
#[derive(Clone, Copy, Debug, PartialEq, Eq, Structural)]
pub enum ValueOutcome {
    /// It answers another request than the one in flight.
    Stale,
    /// With it a quorum has replied to a write, and the greatest `ts` among
    /// the replies is the greatest there is, so that no greater tag can be
    /// installed. The slot is left as it was.
    Exhausted,
    /// It was recorded; there is no quorum yet.
    Collected,
    /// A quorum agreed on one `ts`: the read is complete with this value.
    ReadComplete(u32),
    /// A quorum replied: this write is to be broadcast.
    Impose(Write),
}

/// What became of an `Ack`.
#[derive(Clone, Copy, Debug, PartialEq, Eq, Structural)]
pub enum AckOutcome {
    /// It answers another request than the one in flight.
    Stale,
    /// It was counted; there is no quorum yet.
    Counted,
    /// A quorum acknowledged the write-back of a read with this value.
    ReadComplete(u32),
    /// A quorum acknowledged a write.
    WriteComplete,
}

/// More than half of `n` nodes.
pub open spec fn is_quorum(count: nat, n: u32) -> bool {
    count > n / 2
}

/// `(ts, wr)` is lexicographically greater than `(ts0, wr0)`.
pub open spec fn tag_gt(ts: u32, wr: u32, ts0: u32, wr0: u32) -> bool {
    ts > ts0 || (ts == ts0 && wr > wr0)
}

/// The tag of `a` is lexicographically at most that of `b`.
pub open spec fn tag_le(a: AtomicRegisterState, b: AtomicRegisterState) -> bool {
    !tag_gt(a.ts, a.wr, b.ts, b.wr)
}

/// The register of a key that no message has touched.
pub open spec fn initial_register() -> AtomicRegisterState {
    AtomicRegisterState {
        ts: 0,
        wr: 0,
        value: 0,
        acks: 0,
        readval: 0,
        writeval: 0,
        rid: 0,
        reading: false,
        first_received_ts: 0,
        skip_impose: true,
    }
}

/// The slot of a key that no message has touched: the initial register and
/// no replies.
pub open spec fn initial_slot() -> Slot {
    Slot { reg: initial_register(), replies: Map::empty() }
}

/// What the handlers keep true of a slot on a node among `n`: the replies
/// are finitely many, and the acks never make a quorum.
pub open spec fn slot_wf(s: Slot, n: u32) -> bool {
    &&& s.replies.dom().finite()
    &&& s.reg.acks <= n / 2
}

/// The slot after a read was invoked on it.
pub open spec fn slot_invoke_read(s: Slot) -> Slot {
    Slot {
        reg: AtomicRegisterState { rid: (s.reg.rid + 1) as u32, acks: 0, reading: true, ..s.reg },
        replies: Map::empty(),
    }
}

/// The slot after the node of rank `rank` invoked a write on it.
pub open spec fn slot_invoke_write(s: Slot, rank: u32) -> Slot {
    Slot {
        reg: AtomicRegisterState {
            rid: (s.reg.rid + 1) as u32,
            writeval: rank,
            acks: 0,
            reading: false,
            ..s.reg
        },
        replies: Map::empty(),
    }
}

/// The reply of the node of rank `rank` to `r`, by which it reports what it
/// stores.
pub open spec fn reply_to_read(reg: AtomicRegisterState, r: Read, rank: u32) -> Value {
    Value {
        run_id: r.run_id,
        key: r.key,
        rid: r.rid,
        ts: reg.ts,
        wr: reg.wr,
        value: reg.value,
        sender_rank: rank,
    }
}

/// The register after it took note of the reply `v`, before `v` is recorded:
/// the first reply of a read sets `first_received_ts` and `readval`; a later
/// one with another `ts` clears `skip_impose`.
pub open spec fn noted(reg: AtomicRegisterState, first: bool, v: Value) -> AtomicRegisterState {
    if !reg.reading {
        reg
    } else if first {
        AtomicRegisterState { first_received_ts: v.ts, readval: v.value, ..reg }
    } else if reg.skip_impose && reg.first_received_ts != v.ts {
        AtomicRegisterState { skip_impose: false, ..reg }
    } else {
        reg
    }
}

/// The write that follows the read phase once `top` is the greatest reply: a
/// read imposes what it saw; a write of rank `rank` installs its value under
/// the next greater tag.
pub open spec fn write_after_quorum(
    reg: AtomicRegisterState,
    top: Stamp,
    v: Value,
    rank: u32,
) -> Write {
    if reg.reading {
        Write { run_id: v.run_id, key: v.key, rid: v.rid, ts: top.0, wr: top.1, value: top.2 }
    } else {
        Write {
            run_id: v.run_id,
            key: v.key,
            rid: v.rid,
            ts: (top.0 + 1) as u32,
            wr: rank,
            value: reg.writeval,
        }
    }
}

/// The slot after the reply `v` reached a node of rank `rank` among `n`, and
/// what became of `v`.
///
/// Every reply to the request in flight is recorded. With a quorum of
/// replies the read phase ends: a read whose replies all carry one `ts` is
/// complete, and any other operation goes on with a write. Only a write that
/// would have to outdo the greatest `ts` there is cannot go on; the reply
/// that would end its read phase is refused and the slot stays as it was.
pub open spec fn slot_on_value(s: Slot, v: Value, n: u32, rank: u32) -> (Slot, ValueOutcome) {
    if v.rid != s.reg.rid {
        (s, ValueOutcome::Stale)
    } else {
        let reg = noted(s.reg, s.replies.len() == 0, v);
        let replies = s.replies.insert(v.sender_rank, (v.ts, v.wr, v.value));
        if !is_quorum(replies.len(), n) {
            (Slot { reg, replies }, ValueOutcome::Collected)
        } else if reg.reading && reg.skip_impose {
            (
                Slot {
                    reg: AtomicRegisterState { value: reg.readval, ..reg },
                    replies: Map::empty(),
                },
                ValueOutcome::ReadComplete(reg.readval),
            )
        } else {
            let top = max_stamp(replies);
            if !reg.reading && top.0 == u32::MAX {
                (s, ValueOutcome::Exhausted)
            } else {
                (
                    Slot {
                        reg: AtomicRegisterState { readval: top.2, ..reg },
                        replies: Map::empty(),
                    },
                    ValueOutcome::Impose(write_after_quorum(reg, top, v, rank)),
                )
            }
        }
    }
}

/// The register after `w` reached it: `w` is adopted if and only if its tag is
/// greater than the stored one.
pub open spec fn register_on_write(reg: AtomicRegisterState, w: Write) -> AtomicRegisterState {
    if tag_gt(w.ts, w.wr, reg.ts, reg.wr) {
        AtomicRegisterState { ts: w.ts, wr: w.wr, value: w.value, ..reg }
    } else {
        reg
    }
}

/// The answer to `w`, which is the same whether `w` was adopted or not.
pub open spec fn ack_of(w: Write) -> Ack {
    Ack { run_id: w.run_id, key: w.key, rid: w.rid }
}

/// The register after `a` reached a node among `n`, and what became of `a`.
pub open spec fn register_on_ack(reg: AtomicRegisterState, a: Ack, n: u32) -> (
    AtomicRegisterState,
    AckOutcome,
) {
    if a.rid != reg.rid {
        (reg, AckOutcome::Stale)
    } else if !is_quorum((reg.acks + 1) as nat, n) {
        (AtomicRegisterState { acks: (reg.acks + 1) as u32, ..reg }, AckOutcome::Counted)
    } else if reg.reading {
        (AtomicRegisterState { acks: 0, ..reg }, AckOutcome::ReadComplete(reg.readval))
    } else {
        (AtomicRegisterState { acks: 0, ..reg }, AckOutcome::WriteComplete)
    }
}

impl AtomicRegisterState {
    /// A register that holds value 0 under tag `(0, 0)`, with no operation in
    /// flight. `skip_impose` starts out true: a read phase sees at least one
    /// reply before a quorum is there.
    pub fn new() -> (reg: AtomicRegisterState)
        ensures
            reg == initial_register(),
    {
        AtomicRegisterState {
            reading: false,
            skip_impose: true,
            ts: 0,
            wr: 0,
            value: 0,
            acks: 0,
            readval: 0,
            writeval: 0,
            rid: 0,
            first_received_ts: 0,
        }
    }

    /// Starts a read: a new request id, no acks, no replies.
    pub fn invoke_read(&mut self, readlist: &mut ReadList)
        requires
            old(self).rid < u32::MAX,
        ensures
            (Slot { reg: *final(self), replies: final(readlist)@ }) == slot_invoke_read(
                Slot { reg: *old(self), replies: old(readlist)@ },
            ),
    {
        self.rid = self.rid + 1;
        self.acks = 0;
        self.reading = true;
        readlist.clear();
    }

    /// Starts a write of the value `rank`: a new request id, no acks, no
    /// replies. A write begins with a read phase, too.
    pub fn invoke_write(&mut self, readlist: &mut ReadList, rank: u32)
        requires
            old(self).rid < u32::MAX,
        ensures
            (Slot { reg: *final(self), replies: final(readlist)@ }) == slot_invoke_write(
                Slot { reg: *old(self), replies: old(readlist)@ },
                rank,
            ),
    {
        self.rid = self.rid + 1;
        self.writeval = rank;
        self.acks = 0;
        self.reading = false;
        readlist.clear();
    }

    /// The reply to `r`: the stored tag and value, signed with `rank`.
    pub fn on_read(&self, r: Read, rank: u32) -> (reply: Value)
        ensures
            reply == reply_to_read(*self, r, rank),
    {
        Value {
            run_id: r.run_id,
            key: r.key,
            rid: r.rid,
            ts: self.ts,
            wr: self.wr,
            value: self.value,
            sender_rank: rank,
        }
    }

    /// Takes in the reply `v` on a node of rank `rank` among `n`.
    pub fn on_value(&mut self, readlist: &mut ReadList, v: Value, n: u32, rank: u32) -> (outcome:
        ValueOutcome)
        requires
            slot_wf(Slot { reg: *old(self), replies: old(readlist)@ }, n),
        ensures
            (Slot { reg: *final(self), replies: final(readlist)@ }, outcome) == slot_on_value(
                Slot { reg: *old(self), replies: old(readlist)@ },
                v,
                n,
                rank,
            ),
            slot_wf(Slot { reg: *final(self), replies: final(readlist)@ }, n),
    {
        if v.rid != self.rid {
            return ValueOutcome::Stale;
        }
        let previous: Option<Stamp> = readlist.get(v.sender_rank);
        if self.reading {
            if readlist.is_empty() {
                self.first_received_ts = v.ts;
                self.readval = v.value;
            } else if self.skip_impose {
                if self.first_received_ts != v.ts {
                    self.skip_impose = false;
                }
            }
        }
        readlist.insert(v.sender_rank, (v.ts, v.wr, v.value));
        proof {
            readlist.lemma_finite();
        }
        if readlist.len() > (n / 2) as usize {
            if self.reading && self.skip_impose {
                self.value = self.readval;
                readlist.clear();
                ValueOutcome::ReadComplete(self.readval)
            } else {
                let top: Stamp = readlist.max();
                if !self.reading && top.0 == u32::MAX {
                    match previous {
                        Some(stamp) => readlist.insert(v.sender_rank, stamp),
                        None => readlist.remove(v.sender_rank),
                    }
                    assert(readlist@ =~= old(readlist)@);
                    return ValueOutcome::Exhausted;
                }
                let write = if self.reading {
                    Write {
                        ts: top.0,
                        wr: top.1,
                        value: top.2,
                        run_id: v.run_id,
                        key: v.key,
                        rid: v.rid,
                    }
                } else {
                    Write {
                        ts: top.0 + 1,
                        wr: rank,
                        value: self.writeval,
                        run_id: v.run_id,
                        key: v.key,
                        rid: v.rid,
                    }
                };
                self.readval = top.2;
                readlist.clear();
                ValueOutcome::Impose(write)
            }
        } else {
            ValueOutcome::Collected
        }
    }

    /// Whether taking in `v` would complete a read: `v` answers the read in
    /// flight, makes a quorum, and every reply carries the same `ts`.
    pub fn value_completes_read(&self, readlist: &ReadList, v: Value, n: u32, rank: u32) -> (yes:
        bool)
        ensures
            yes == (slot_on_value(Slot { reg: *self, replies: readlist@ }, v, n, rank).1
                is ReadComplete),
    {
        if v.rid != self.rid || !self.reading {
            return false;
        }
        let first: bool = readlist.is_empty();
        let skip: bool = if first {
            self.skip_impose
        } else {
            self.skip_impose && self.first_received_ts == v.ts
        };
        if !skip {
            return false;
        }
        let held: usize = readlist.len();
        proof {
            readlist.lemma_finite();
            let after = readlist@.insert(v.sender_rank, (v.ts, v.wr, v.value));
            assert(after.dom() =~= readlist@.dom().insert(v.sender_rank));
        }
        match readlist.get(v.sender_rank) {
            Some(_) => held > (n / 2) as usize,
            None => held >= (n / 2) as usize,
        }
    }

    /// Takes in `w`: adopts it if its tag is greater than the stored one.
    pub fn on_write(&mut self, w: Write) -> (ack: Ack)
        ensures
            *final(self) == register_on_write(*old(self), w),
            ack == ack_of(w),
    {
        if w.ts > self.ts || (w.ts == self.ts && w.wr > self.wr) {
            self.ts = w.ts;
            self.wr = w.wr;
            self.value = w.value;
        }
        Ack { run_id: w.run_id, key: w.key, rid: w.rid }
    }

    /// Takes in `a` on a node among `n`.
    pub fn on_ack(&mut self, a: Ack, n: u32) -> (outcome: AckOutcome)
        requires
            old(self).acks <= n / 2,
        ensures
            (*final(self), outcome) == register_on_ack(*old(self), a, n),
            final(self).acks <= n / 2,
    {
        if a.rid != self.rid {
            return AckOutcome::Stale;
        }
        self.acks = self.acks + 1;
        if self.acks > n / 2 {
            self.acks = 0;
            if self.reading {
                AckOutcome::ReadComplete(self.readval)
            } else {
                AckOutcome::WriteComplete
            }
        } else {
            AckOutcome::Counted
        }
    }
}

} // verus!
