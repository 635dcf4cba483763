//! Laws of the register protocol, proved about the state machine that the
//! executable node is held to.

use crate::atomicregister::messages::{Ack, AtomicRegisterMessage, Read, Value, Write};
use crate::atomicregister::model::{
    complete_read, complete_write, effects_of, in_range, lemma_handle_keeps_wf,
    lemma_run_keeps_wf, lemma_slot_on_value_keeps_wf, model_handle, model_on_ack, model_on_value,
    model_run, state_after, Effect, NodeModel, ProtocolError,
};
use crate::atomicregister::readlist::{
    is_max_stamp, lemma_max_stamp_unique, max_stamp, stamp_le, Stamp,
};
use crate::atomicregister::register::{
    ack_of, is_quorum, noted, register_on_ack, register_on_write, reply_to_read, slot_invoke_read,
    slot_invoke_write, slot_on_value, slot_wf, tag_gt, tag_le, write_after_quorum, AckOutcome,
    AtomicRegisterState, Slot, ValueOutcome,
};
use vstd::prelude::*;

verus! {

/// What can happen to a node within one iteration.
pub enum Event {
    /// The coordinator asks the node to run its operations.
    Run { num_reads: u64, num_writes: u64 },
    /// A message of the protocol arrives.
    Message(AtomicRegisterMessage),
}

/// The step that `e` makes in state `m`.
pub open spec fn model_step(m: NodeModel, e: Event) -> Result<(NodeModel, Seq<Effect>), ProtocolError> {
    match e {
        Event::Run { num_reads, num_writes } => model_run(m, num_reads, num_writes),
        Event::Message(msg) => model_handle(m, msg),
    }
}

/// The state after the events of `events` happened in order, starting in `m`.
pub open spec fn state_after_all(m: NodeModel, events: Seq<Event>) -> NodeModel
    decreases events.len(),
{
    if events.len() == 0 {
        m
    } else {
        let before = state_after_all(m, events.drop_last());
        state_after(before, model_step(before, events.last()))
    }
}

/// The effects of the events of `events`, in order.
pub open spec fn effects_of_all(m: NodeModel, events: Seq<Event>) -> Seq<Effect>
    decreases events.len(),
{
    if events.len() == 0 {
        Seq::empty()
    } else {
        let before = state_after_all(m, events.drop_last());
        effects_of_all(m, events.drop_last()) + effects_of(model_step(before, events.last()))
    }
}

/// How often the coordinator is told that the node is done.
pub open spec fn count_done(effects: Seq<Effect>) -> nat
    decreases effects.len(),
{
    if effects.len() == 0 {
        0
    } else {
        count_done(effects.drop_last()) + if effects.last() is Done {
            1nat
        } else {
            0nat
        }
    }
}

/// Operations that were invoked and are not complete.
pub open spec fn pending(m: NodeModel) -> nat {
    (m.read_count + m.write_count) as nat
}

/// Whether every event of `events` is a message.
pub open spec fn only_messages(events: Seq<Event>) -> bool {
    forall|i: int| 0 <= i < events.len() ==> #[trigger] events[i] is Message
}

/// No event of an iteration takes a key away or lowers its tag: for every
/// key, `(ts, wr)` after the event is lexicographically at least what it was.
pub proof fn lemma_step_keeps_tags(m: NodeModel, e: Event, key: u64)
    requires
        m.slots.contains_key(key),
    ensures
        state_after(m, model_step(m, e)).slots.contains_key(key),
        tag_le(m.slots[key].reg, state_after(m, model_step(m, e)).slots[key].reg),
        state_after(m, model_step(m, e)).run_id == m.run_id,
{
}

/// Tags never decrease: across any sequence of events of an iteration, the
/// tag `(ts, wr)` of every key is lexicographically non-decreasing.
pub proof fn lemma_tags_monotonic(m: NodeModel, events: Seq<Event>, key: u64)
    requires
        m.slots.contains_key(key),
    ensures
        state_after_all(m, events).slots.contains_key(key),
        tag_le(m.slots[key].reg, state_after_all(m, events).slots[key].reg),
    decreases events.len(),
{
    if events.len() > 0 {
        lemma_tags_monotonic(m, events.drop_last(), key);
        lemma_step_keeps_tags(state_after_all(m, events.drop_last()), events.last(), key);
    }
}

/// The tag after a longer sequence of events is at least the tag after any
/// of its prefixes.
pub proof fn lemma_tags_monotonic_between(
    m: NodeModel,
    events: Seq<Event>,
    cut: int,
    key: u64,
)
    requires
        m.slots.contains_key(key),
        0 <= cut <= events.len(),
    ensures
        state_after_all(m, events.subrange(0, cut)).slots.contains_key(key),
        state_after_all(m, events).slots.contains_key(key),
        tag_le(
            state_after_all(m, events.subrange(0, cut)).slots[key].reg,
            state_after_all(m, events).slots[key].reg,
        ),
    decreases events.len() - cut,
{
    lemma_tags_monotonic(m, events.subrange(0, cut), key);
    if cut == events.len() {
        assert(events.subrange(0, cut) =~= events);
    } else {
        lemma_tags_monotonic_between(m, events.drop_last(), cut, key);
        assert(events.drop_last().subrange(0, cut) =~= events.subrange(0, cut));
        lemma_step_keeps_tags(state_after_all(m, events.drop_last()), events.last(), key);
    }
}

/// The register after the writes of `writes` reached it, in order.
pub open spec fn after_writes(reg: AtomicRegisterState, writes: Seq<Write>) -> AtomicRegisterState
    decreases writes.len(),
{
    if writes.len() == 0 {
        reg
    } else {
        register_on_write(after_writes(reg, writes.drop_last()), writes.last())
    }
}

/// Whether the write `w` carries the tag and the value that `reg` stores.
pub open spec fn stores(reg: AtomicRegisterState, w: Write) -> bool {
    w.ts == reg.ts && w.wr == reg.wr && w.value == reg.value
}

/// A register holds the greatest write it was given: after any writes, its
/// tag is at least the tag it had and the tag of every write, and what it
/// stores is what it stored before or what one of the writes carries.
/// Nothing but tag and value changes.
pub proof fn lemma_register_holds_greatest_write(reg: AtomicRegisterState, writes: Seq<Write>)
    ensures
        ({
            let held = after_writes(reg, writes);
            &&& tag_le(reg, held)
            &&& forall|i: int|
                0 <= i < writes.len() ==> !tag_gt(
                    (#[trigger] writes[i]).ts,
                    writes[i].wr,
                    held.ts,
                    held.wr,
                )
            &&& (held == reg || exists|i: int|
                0 <= i < writes.len() && stores(held, #[trigger] writes[i]))
            &&& held == (AtomicRegisterState {
                ts: held.ts,
                wr: held.wr,
                value: held.value,
                ..reg
            })
        }),
    decreases writes.len(),
{
    if writes.len() > 0 {
        let before = writes.drop_last();
        lemma_register_holds_greatest_write(reg, before);
        let mid = after_writes(reg, before);
        let held = after_writes(reg, writes);
        assert(writes.last() == writes[writes.len() - 1]);
        assert forall|i: int| 0 <= i < writes.len() implies !tag_gt(
            (#[trigger] writes[i]).ts,
            writes[i].wr,
            held.ts,
            held.wr,
        ) by {
            if i < before.len() {
                assert(before[i] == writes[i]);
            }
        }
        if held != reg {
            if held == mid {
                let i = choose|i: int| 0 <= i < before.len() && stores(mid, #[trigger] before[i]);
                assert(before[i] == writes[i]);
                assert(stores(held, writes[i]));
            } else {
                assert(stores(held, writes[writes.len() - 1]));
            }
        }
    }
}

/// Nodes that were given the same writes hold the same tag, in whatever
/// order the writes came: if two registers start with one tag and every
/// tag among the writes of the one is among the writes of the other, both
/// end with the same tag.
pub proof fn lemma_same_writes_same_tag(
    a: AtomicRegisterState,
    b: AtomicRegisterState,
    to_a: Seq<Write>,
    to_b: Seq<Write>,
)
    requires
        a.ts == b.ts,
        a.wr == b.wr,
        forall|i: int|
            0 <= i < to_a.len() ==> exists|j: int|
                0 <= j < to_b.len() && (#[trigger] to_b[j]).ts == (#[trigger] to_a[i]).ts
                    && to_b[j].wr == to_a[i].wr,
        forall|j: int|
            0 <= j < to_b.len() ==> exists|i: int|
                0 <= i < to_a.len() && (#[trigger] to_a[i]).ts == (#[trigger] to_b[j]).ts
                    && to_a[i].wr == to_b[j].wr,
    ensures
        after_writes(a, to_a).ts == after_writes(b, to_b).ts,
        after_writes(a, to_a).wr == after_writes(b, to_b).wr,
{
    lemma_register_holds_greatest_write(a, to_a);
    lemma_register_holds_greatest_write(b, to_b);
    let at_a = after_writes(a, to_a);
    let at_b = after_writes(b, to_b);
    assert(!tag_gt(at_a.ts, at_a.wr, at_b.ts, at_b.wr)) by {
        if at_a != a {
            let i = choose|i: int| 0 <= i < to_a.len() && stores(at_a, #[trigger] to_a[i]);
            let j = choose|j: int|
                0 <= j < to_b.len() && (#[trigger] to_b[j]).ts == to_a[i].ts && to_b[j].wr
                    == to_a[i].wr;
            assert(!tag_gt(to_b[j].ts, to_b[j].wr, at_b.ts, at_b.wr));
        }
    }
    assert(!tag_gt(at_b.ts, at_b.wr, at_a.ts, at_a.wr)) by {
        if at_b != b {
            let j = choose|j: int| 0 <= j < to_b.len() && stores(at_b, #[trigger] to_b[j]);
            let i = choose|i: int|
                0 <= i < to_a.len() && (#[trigger] to_a[i]).ts == to_b[j].ts && to_a[i].wr
                    == to_b[j].wr;
            assert(!tag_gt(to_a[i].ts, to_a[i].wr, at_a.ts, at_a.wr));
        }
    }
}

/// A step keeps the state well formed.
pub proof fn lemma_step_keeps_wf(m: NodeModel, e: Event)
    requires
        m.wf(),
    ensures
        state_after(m, model_step(m, e)).wf(),
{
    match e {
        Event::Run { num_reads, num_writes } => lemma_run_keeps_wf(m, num_reads, num_writes),
        Event::Message(msg) => lemma_handle_keeps_wf(m, msg),
    }
}

/// Request ids never go back: across any sequence of events of an
/// iteration, the request id of every key is non-decreasing, and the state
/// stays well formed.
pub proof fn lemma_request_ids_monotonic(m: NodeModel, events: Seq<Event>, key: u64)
    requires
        m.wf(),
        m.slots.contains_key(key),
    ensures
        state_after_all(m, events).wf(),
        state_after_all(m, events).slots.contains_key(key),
        m.slots[key].reg.rid <= state_after_all(m, events).slots[key].reg.rid,
    decreases events.len(),
{
    if events.len() > 0 {
        lemma_request_ids_monotonic(m, events.drop_last(), key);
        let before = state_after_all(m, events.drop_last());
        lemma_step_keeps_wf(before, events.last());
        lemma_step_keeps_request_id(before, events.last(), key);
    }
}

/// No event lowers the request id of a key.
pub proof fn lemma_step_keeps_request_id(m: NodeModel, e: Event, key: u64)
    requires
        m.wf(),
        m.slots.contains_key(key),
    ensures
        state_after(m, model_step(m, e)).slots.contains_key(key),
        m.slots[key].reg.rid <= state_after(m, model_step(m, e)).slots[key].reg.rid,
{
}

/// A second reply of a rank takes the place of its first and adds nothing
/// to the count; the first reply of a rank adds one.
pub proof fn lemma_replies_count_ranks(replies: Map<u32, Stamp>, rank: u32, stamp: Stamp)
    requires
        replies.dom().finite(),
    ensures
        replies.insert(rank, stamp).dom().finite(),
        replies.contains_key(rank) ==> replies.insert(rank, stamp).len() == replies.len(),
        !replies.contains_key(rank) ==> replies.insert(rank, stamp).len() == replies.len() + 1,
{
    assert(replies.insert(rank, stamp).dom() =~= replies.dom().insert(rank));
}

/// A read phase ends exactly on a quorum of distinct ranks. Let `v` answer
/// the request in flight. If, with `v` recorded, at most half of the `n`
/// ranks have replied, `v` is recorded and nothing else happens. If more
/// than half have replied, the read phase ends and the replies are
/// forgotten: a read is complete or a write is to be broadcast. The one
/// exception is the write that cannot outdo the greatest `ts` there is: it
/// is refused and the slot stays as it was.
pub proof fn lemma_read_phase_needs_quorum(s: Slot, v: Value, n: u32, rank: u32)
    requires
        s.replies.dom().finite(),
        v.rid == s.reg.rid,
    ensures
        ({
            let (next, outcome) = slot_on_value(s, v, n, rank);
            let replies = s.replies.insert(v.sender_rank, (v.ts, v.wr, v.value));
            let exhausted = !s.reg.reading && max_stamp(replies).0 == u32::MAX;
            &&& (replies.dom().len() <= n / 2) <==> (outcome is Collected)
            &&& outcome is Collected ==> next.replies == replies && next.reg == noted(
                s.reg,
                s.replies.len() == 0,
                v,
            )
            &&& (replies.dom().len() > n / 2 && !exhausted) <==> (outcome is ReadComplete
                || outcome is Impose)
            &&& (outcome is ReadComplete || outcome is Impose) ==> next.replies == Map::<
                u32,
                Stamp,
            >::empty()
            &&& (replies.dom().len() > n / 2 && exhausted) <==> (outcome is Exhausted)
            &&& outcome is Exhausted ==> next == s
        }),
{
    let replies = s.replies.insert(v.sender_rank, (v.ts, v.wr, v.value));
    let reg = noted(s.reg, s.replies.len() == 0, v);
    assert(reg.reading == s.reg.reading);
}

/// The register after `count` acks of the request in flight were taken in.
pub open spec fn after_acks(reg: AtomicRegisterState, a: Ack, n: u32, count: nat)
    -> AtomicRegisterState
    decreases count,
{
    if count == 0 {
        reg
    } else {
        register_on_ack(after_acks(reg, a, n, (count - 1) as nat), a, n).0
    }
}

/// A write phase ends only on a quorum of acks: starting from no acks, the
/// first `n / 2` acks of the request in flight are counted and complete
/// nothing, and the one after them completes the operation.
pub proof fn lemma_write_phase_needs_quorum(reg: AtomicRegisterState, a: Ack, n: u32, count: nat)
    requires
        reg.acks == 0,
        a.rid == reg.rid,
        count <= n / 2,
    ensures
        after_acks(reg, a, n, count) == (AtomicRegisterState { acks: count as u32, ..reg }),
        count < n / 2 ==> register_on_ack(after_acks(reg, a, n, count), a, n).1
            == AckOutcome::Counted,
        count == n / 2 ==> register_on_ack(after_acks(reg, a, n, count), a, n).1 == (if reg.reading {
            AckOutcome::ReadComplete(reg.readval)
        } else {
            AckOutcome::WriteComplete
        }),
    decreases count,
{
    if count > 0 {
        lemma_write_phase_needs_quorum(reg, a, n, (count - 1) as nat);
    }
}

/// An ack completes an operation exactly if, with it, more than half of the
/// `n` nodes have acknowledged the request in flight.
pub proof fn lemma_ack_completes_on_quorum(reg: AtomicRegisterState, a: Ack, n: u32)
    requires
        a.rid == reg.rid,
    ensures
        ({
            let outcome = register_on_ack(reg, a, n).1;
            (outcome is ReadComplete || outcome is WriteComplete) <==> is_quorum(
                (reg.acks + 1) as nat,
                n,
            )
        }),
{
}

/// The slot after the replies of `replies` were taken in, in order.
pub open spec fn after_values(s: Slot, replies: Seq<Value>, n: u32, rank: u32) -> Slot
    decreases replies.len(),
{
    if replies.len() == 0 {
        s
    } else {
        slot_on_value(after_values(s, replies.drop_last(), n, rank), replies.last(), n, rank).0
    }
}

/// What became of the last reply of `replies`.
pub open spec fn last_outcome(s: Slot, replies: Seq<Value>, n: u32, rank: u32) -> ValueOutcome
    recommends
        replies.len() > 0,
{
    slot_on_value(after_values(s, replies.drop_last(), n, rank), replies.last(), n, rank).1
}

/// Whether no reply before the last of `replies` ended the read phase.
pub open spec fn collecting(s: Slot, replies: Seq<Value>, n: u32, rank: u32) -> bool {
    forall|i: int|
        1 <= i < replies.len() ==> #[trigger] last_outcome(s, replies.subrange(0, i), n, rank)
            == ValueOutcome::Collected
}

/// Whether every reply of `replies` carries the `ts` of the first.
pub open spec fn same_ts(replies: Seq<Value>) -> bool {
    forall|i: int| 0 <= i < replies.len() ==> (#[trigger] replies[i]).ts == replies[0].ts
}

/// While a read collects replies, it remembers the first and whether all
/// agree with it.
proof fn lemma_read_collects(s: Slot, replies: Seq<Value>, n: u32, rank: u32)
    requires
        s.reg.reading,
        s.reg.skip_impose,
        s.replies.dom().finite(),
        s.replies.len() == 0,
        replies.len() > 0,
        forall|i: int| 0 <= i < replies.len() ==> (#[trigger] replies[i]).rid == s.reg.rid,
        forall|i: int|
            1 <= i <= replies.len() ==> #[trigger] last_outcome(s, replies.subrange(0, i), n, rank)
                == ValueOutcome::Collected,
    ensures
        ({
            let after = after_values(s, replies, n, rank);
            &&& after.reg.reading
            &&& after.reg.rid == s.reg.rid
            &&& after.reg.first_received_ts == replies[0].ts
            &&& after.reg.readval == replies[0].value
            &&& after.reg.skip_impose == same_ts(replies)
            &&& after.replies.dom().finite()
            &&& after.replies.len() > 0
        }),
    decreases replies.len(),
{
    let before = replies.drop_last();
    let last = replies.last();
    assert(replies.subrange(0, replies.len() as int) =~= replies);
    assert(last_outcome(s, replies, n, rank) == ValueOutcome::Collected);
    if before.len() == 0 {
        assert(replies[0] == last);
    } else {
        assert forall|i: int| 1 <= i <= before.len() implies #[trigger] last_outcome(
            s,
            before.subrange(0, i),
            n,
            rank,
        ) == ValueOutcome::Collected by {
            assert(before.subrange(0, i) =~= replies.subrange(0, i));
        }
        lemma_read_collects(s, before, n, rank);
        assert(before[0] == replies[0]);
        let mid = after_values(s, before, n, rank);
        if same_ts(before) {
            if last.ts == replies[0].ts {
                assert forall|i: int| 0 <= i < replies.len() implies (#[trigger] replies[i]).ts
                    == replies[0].ts by {
                    if i < before.len() {
                        assert(before[i] == replies[i]);
                    }
                }
            } else {
                assert(replies[replies.len() - 1].ts != replies[0].ts);
            }
        } else {
            let i = choose|i: int| 0 <= i < before.len() && (#[trigger] before[i]).ts != before[0].ts;
            assert(replies[i] == before[i]);
        }
    }
    let after = after_values(s, replies, n, rank);
    assert(after.replies.dom().contains(last.sender_rank));
    assert(after.replies.dom().len() > 0) by {
        if after.replies.dom().len() == 0 {
            assert(after.replies.dom() =~= Set::<u32>::empty());
        }
    }
}

/// Skip-impose is sound: let a read start with `skip_impose` set, and let
/// `replies` be the replies to it up to the first that makes a quorum. Then
/// the write phase is skipped exactly if all of them carry the same `ts`, and
/// the read then returns the value of the first reply.
pub proof fn lemma_skip_impose_sound(s: Slot, replies: Seq<Value>, n: u32, rank: u32)
    requires
        s.reg.reading,
        s.reg.skip_impose,
        s.replies.dom().finite(),
        s.replies.len() == 0,
        replies.len() > 0,
        forall|i: int| 0 <= i < replies.len() ==> (#[trigger] replies[i]).rid == s.reg.rid,
        collecting(s, replies, n, rank),
        last_outcome(s, replies, n, rank) != ValueOutcome::Collected,
    ensures
        last_outcome(s, replies, n, rank) is ReadComplete <==> same_ts(replies),
        last_outcome(s, replies, n, rank) is ReadComplete ==> last_outcome(s, replies, n, rank)
            == ValueOutcome::ReadComplete(replies[0].value),
        !same_ts(replies) ==> last_outcome(s, replies, n, rank) is Impose,
{
    let before = replies.drop_last();
    let last = replies.last();
    if before.len() == 0 {
        assert(replies[0] == last);
        assert(same_ts(replies));
    } else {
        assert forall|i: int| 1 <= i <= before.len() implies #[trigger] last_outcome(
            s,
            before.subrange(0, i),
            n,
            rank,
        ) == ValueOutcome::Collected by {
            assert(before.subrange(0, i) =~= replies.subrange(0, i));
        }
        lemma_read_collects(s, before, n, rank);
        assert(before[0] == replies[0]);
        if same_ts(before) {
            if last.ts == replies[0].ts {
                assert forall|i: int| 0 <= i < replies.len() implies (#[trigger] replies[i]).ts
                    == replies[0].ts by {
                    if i < before.len() {
                        assert(before[i] == replies[i]);
                    }
                }
            } else {
                assert(replies[replies.len() - 1].ts != replies[0].ts);
            }
        } else {
            let i = choose|i: int| 0 <= i < before.len() && (#[trigger] before[i]).ts != before[0].ts;
            assert(replies[i] == before[i]);
        }
    }
}

/// The replies of `replies` as events of a node, in order.
pub open spec fn value_events(replies: Seq<Value>) -> Seq<Event> {
    Seq::new(replies.len(), |i: int| Event::Message(AtomicRegisterMessage::Value(replies[i])))
}

/// Whether every reply of `replies` is of iteration `run_id`, for `key`, and
/// answers request `rid`.
pub open spec fn all_answer(replies: Seq<Value>, run_id: u32, key: u64, rid: u32) -> bool {
    forall|i: int|
        0 <= i < replies.len() ==> (#[trigger] replies[i]).run_id == run_id && replies[i].key
            == key && replies[i].rid == rid
}

/// While the replies to a request make no quorum, a node does nothing but
/// record them in the slot of their key.
proof fn lemma_collecting_at_node(m: NodeModel, key: u64, replies: Seq<Value>)
    requires
        m.wf(),
        m.slots.contains_key(key),
        all_answer(replies, m.run_id, key, m.slots[key].reg.rid),
        forall|i: int|
            1 <= i <= replies.len() ==> #[trigger] last_outcome(
                m.slots[key],
                replies.subrange(0, i),
                m.n,
                m.rank,
            ) == ValueOutcome::Collected,
    ensures
        state_after_all(m, value_events(replies)) == (if replies.len() == 0 {
            m
        } else {
            m.with_slot(key, after_values(m.slots[key], replies, m.n, m.rank))
        }),
        after_values(m.slots[key], replies, m.n, m.rank).reg.rid == m.slots[key].reg.rid,
        slot_wf(after_values(m.slots[key], replies, m.n, m.rank), m.n),
    decreases replies.len(),
{
    let slot = m.slots[key];
    if replies.len() > 0 {
        let before = replies.drop_last();
        let last = replies.last();
        assert(value_events(replies).drop_last() =~= value_events(before));
        assert(value_events(replies).last() == Event::Message(AtomicRegisterMessage::Value(last)));
        assert(all_answer(before, m.run_id, key, slot.reg.rid)) by {
            assert forall|i: int| 0 <= i < before.len() implies (#[trigger] before[i]).run_id
                == m.run_id && before[i].key == key && before[i].rid == slot.reg.rid by {
                assert(before[i] == replies[i]);
            }
        }
        assert forall|i: int| 1 <= i <= before.len() implies #[trigger] last_outcome(
            slot,
            before.subrange(0, i),
            m.n,
            m.rank,
        ) == ValueOutcome::Collected by {
            assert(before.subrange(0, i) =~= replies.subrange(0, i));
        }
        lemma_collecting_at_node(m, key, before);
        assert(replies.subrange(0, replies.len() as int) =~= replies);
        assert(last_outcome(slot, replies, m.n, m.rank) == ValueOutcome::Collected);
        assert(last == replies[replies.len() - 1]);
        let mid = state_after_all(m, value_events(before));
        let held = after_values(slot, before, m.n, m.rank);
        assert(mid.slots[key] == held);
        lemma_slot_on_value_keeps_wf(held, last, m.n, m.rank);
        let after = after_values(slot, replies, m.n, m.rank);
        assert(state_after_all(m, value_events(replies)) == mid.with_slot(key, after));
        assert(mid.with_slot(key, after).slots =~= m.with_slot(key, after).slots);
    }
}

/// Skip-impose at the node. Let a read be in flight on a key whose
/// `skip_impose` is still set, with no reply recorded and a read pending,
/// and let `replies` be the replies to it that reach the node, up to the
/// first that makes a quorum. With that reply the read phase ends. If all
/// replies carry one `ts`, the write phase is skipped: the node stores and
/// returns the value of the first reply, sends nothing to any node, and
/// `skip_impose` stays set. Otherwise `skip_impose` is cleared and exactly
/// one write is broadcast, which carries the greatest reply.
pub proof fn lemma_skip_impose_at_node(m: NodeModel, key: u64, replies: Seq<Value>)
    requires
        m.wf(),
        m.slots.contains_key(key),
        m.slots[key].reg.reading,
        m.slots[key].reg.skip_impose,
        m.slots[key].replies.len() == 0,
        m.read_count > 0,
        replies.len() > 0,
        all_answer(replies, m.run_id, key, m.slots[key].reg.rid),
        collecting(m.slots[key], replies, m.n, m.rank),
        last_outcome(m.slots[key], replies, m.n, m.rank) != ValueOutcome::Collected,
    ensures
        ({
            let before = state_after_all(m, value_events(replies.drop_last()));
            let step = model_on_value(before, replies.last());
            let next = state_after(before, step);
            &&& state_after_all(m, value_events(replies)) == next
            &&& step is Ok
            &&& next.slots[key].replies == Map::<u32, Stamp>::empty()
            &&& same_ts(replies) ==> {
                &&& effects_of(step)[0] == (Effect::ReadResponse {
                    key,
                    value: replies[0].value,
                })
                &&& sends_nothing(effects_of(step))
                &&& next.slots[key].reg.skip_impose
                &&& next.slots[key].reg.value == replies[0].value
                &&& next.read_count + 1 == m.read_count
            }
            &&& !same_ts(replies) ==> {
                &&& effects_of(step).len() == 1
                &&& effects_of(step)[0] matches Effect::Broadcast(AtomicRegisterMessage::Write(w))
                &&& is_max_stamp(
                    before.slots[key].replies.insert(
                        replies.last().sender_rank,
                        (replies.last().ts, replies.last().wr, replies.last().value),
                    ),
                    (w.ts, w.wr, w.value),
                )
                &&& !next.slots[key].reg.skip_impose
                &&& next.read_count == m.read_count
            }
        }),
{
    let slot = m.slots[key];
    let earlier = replies.drop_last();
    let last = replies.last();
    assert(last == replies[replies.len() - 1]);
    assert(all_answer(earlier, m.run_id, key, slot.reg.rid)) by {
        assert forall|i: int| 0 <= i < earlier.len() implies (#[trigger] earlier[i]).run_id
            == m.run_id && earlier[i].key == key && earlier[i].rid == slot.reg.rid by {
            assert(earlier[i] == replies[i]);
        }
    }
    assert forall|i: int| 1 <= i <= earlier.len() implies #[trigger] last_outcome(
        slot,
        earlier.subrange(0, i),
        m.n,
        m.rank,
    ) == ValueOutcome::Collected by {
        assert(earlier.subrange(0, i) =~= replies.subrange(0, i));
    }
    lemma_collecting_at_node(m, key, earlier);
    assert forall|i: int| 0 <= i < replies.len() implies (#[trigger] replies[i]).rid
        == slot.reg.rid by {}
    lemma_skip_impose_sound(slot, replies, m.n, m.rank);
    let before = state_after_all(m, value_events(earlier));
    assert(value_events(replies).drop_last() =~= value_events(earlier));
    assert(value_events(replies).last() == Event::Message(AtomicRegisterMessage::Value(last)));
    assert(before.wf()) by {
        lemma_events_keep_wf(m, value_events(earlier));
    }
    assert(before.slots[key] == after_values(slot, earlier, m.n, m.rank));
    assert(before.read_count == m.read_count);
    lemma_value_at_node(before, last);
    let held = before.slots[key];
    let all = held.replies.insert(last.sender_rank, (last.ts, last.wr, last.value));
    lemma_read_phase_needs_quorum(held, last, m.n, m.rank);
    if !same_ts(replies) {
        assert(all.dom().contains(last.sender_rank));
        assert(all.dom().finite());
        assert(all.len() > 0) by {
            if all.dom().len() == 0 {
                assert(all.dom() =~= Set::<u32>::empty());
            }
        }
        lemma_greatest_reply_exists(all);
        let top = max_stamp(all);
        assert(is_max_stamp(all, top));
        if earlier.len() > 0 {
            assert forall|i: int| 0 <= i < earlier.len() implies (#[trigger] earlier[i]).rid
                == slot.reg.rid by {
                assert(earlier[i] == replies[i]);
            }
            lemma_read_collects(slot, earlier, m.n, m.rank);
        }
        assert(held.reg.reading);
        let reg = noted(held.reg, held.replies.len() == 0, last);
        let w = write_after_quorum(reg, top, last, m.rank);
        assert((w.ts, w.wr, w.value) == top);
    }
}

/// Any sequence of events keeps the state well formed.
pub proof fn lemma_events_keep_wf(m: NodeModel, events: Seq<Event>)
    requires
        m.wf(),
    ensures
        state_after_all(m, events).wf(),
    decreases events.len(),
{
    if events.len() > 0 {
        lemma_events_keep_wf(m, events.drop_last());
        lemma_step_keeps_wf(state_after_all(m, events.drop_last()), events.last());
    }
}

/// How many of the replies of `replies` ended a read phase.
pub open spec fn phases_ended(s: Slot, replies: Seq<Value>, n: u32, rank: u32) -> nat
    decreases replies.len(),
{
    if replies.len() == 0 {
        0
    } else {
        let outcome = last_outcome(s, replies, n, rank);
        phases_ended(s, replies.drop_last(), n, rank) + if outcome is ReadComplete
            || outcome is Impose {
            1nat
        } else {
            0nat
        }
    }
}

/// The quorum is met at most once for a request: of at most `n` replies
/// that come in after a request was invoked, at most one ends the read
/// phase, whichever ranks they come from.
pub proof fn lemma_quorum_at_most_once(s: Slot, replies: Seq<Value>, n: u32, rank: u32)
    requires
        s.replies.dom().finite(),
        s.replies.len() == 0,
        replies.len() <= n,
    ensures
        phases_ended(s, replies, n, rank) <= 1,
        after_values(s, replies, n, rank).replies.dom().finite(),
        phases_ended(s, replies, n, rank) == 0 ==> after_values(s, replies, n, rank).replies.len()
            <= replies.len(),
        phases_ended(s, replies, n, rank) == 1 ==> after_values(s, replies, n, rank).replies.len()
            + n / 2 + 1 <= replies.len(),
    decreases replies.len(),
{
    if replies.len() > 0 {
        let before = replies.drop_last();
        lemma_quorum_at_most_once(s, before, n, rank);
        let mid = after_values(s, before, n, rank);
        let v = replies.last();
        lemma_replies_count_ranks(mid.replies, v.sender_rank, (v.ts, v.wr, v.value));
        let after = after_values(s, replies, n, rank);
        assert(after.replies.dom().finite());
        if after.replies.len() == 0 {
        }
    }
}

/// A write outdoes what it saw: the tag that a write installs is greater
/// than the tag of every reply of its read phase.
pub proof fn lemma_write_outdoes_replies(s: Slot, v: Value, n: u32, rank: u32, other: u32)
    requires
        slot_on_value(s, v, n, rank).1 is Impose,
        !s.reg.reading,
        s.replies.dom().finite(),
        s.replies.insert(v.sender_rank, (v.ts, v.wr, v.value)).contains_key(other),
    ensures
        ({
            let w = slot_on_value(s, v, n, rank).1->Impose_0;
            let seen = s.replies.insert(v.sender_rank, (v.ts, v.wr, v.value))[other];
            &&& w.ts > seen.0
            &&& w.wr == rank
            &&& w.value == s.reg.writeval
        }),
{
    let replies = s.replies.insert(v.sender_rank, (v.ts, v.wr, v.value));
    lemma_greatest_reply_exists(replies);
    let top = max_stamp(replies);
    assert(is_max_stamp(replies, top));
}

/// A read imposes the greatest it saw: where the replies of a read
/// disagree, the write that the read broadcasts carries the reply with the
/// greatest `(ts, wr, value)`, and the read will return the value of that
/// reply.
pub proof fn lemma_read_imposes_greatest(s: Slot, v: Value, n: u32, rank: u32, other: u32)
    requires
        slot_on_value(s, v, n, rank).1 is Impose,
        s.reg.reading,
        s.replies.dom().finite(),
        s.replies.insert(v.sender_rank, (v.ts, v.wr, v.value)).contains_key(other),
    ensures
        ({
            let w = slot_on_value(s, v, n, rank).1->Impose_0;
            let replies = s.replies.insert(v.sender_rank, (v.ts, v.wr, v.value));
            &&& stamp_le(replies[other], (w.ts, w.wr, w.value))
            &&& exists|r: u32| #[trigger] replies.contains_key(r) && replies[r] == (w.ts, w.wr, w.value)
            &&& slot_on_value(s, v, n, rank).0.reg.readval == w.value
        }),
{
    let replies = s.replies.insert(v.sender_rank, (v.ts, v.wr, v.value));
    lemma_greatest_reply_exists(replies);
    let top = max_stamp(replies);
    assert(is_max_stamp(replies, top));
}

/// Among finitely many replies, and at least one, there is a greatest.
pub proof fn lemma_greatest_reply_exists(replies: Map<u32, Stamp>)
    requires
        replies.dom().finite(),
        replies.len() > 0,
    ensures
        is_max_stamp(replies, max_stamp(replies)),
    decreases replies.len(),
{
    let rank = replies.dom().choose();
    assert(replies.dom().contains(rank)) by {
        if !replies.dom().contains(rank) {
            assert(replies.dom() =~= Set::<u32>::empty());
        }
    }
    let rest = replies.remove(rank);
    assert(rest.dom() =~= replies.dom().remove(rank));
    let best = if rest.len() == 0 {
        replies[rank]
    } else {
        lemma_greatest_reply_exists(rest);
        let top = max_stamp(rest);
        if stamp_le(top, replies[rank]) {
            replies[rank]
        } else {
            top
        }
    };
    assert(is_max_stamp(replies, best)) by {
        if rest.len() == 0 {
            assert(rest.dom() =~= Set::<u32>::empty());
            assert(replies.contains_key(rank) && replies[rank] == best);
            assert forall|r: u32| #[trigger] replies.contains_key(r) implies stamp_le(
                replies[r],
                best,
            ) by {
                if r != rank {
                    assert(rest.contains_key(r));
                }
            }
        } else {
            let top = max_stamp(rest);
            let holder = choose|r: u32| #[trigger] rest.contains_key(r) && rest[r] == top;
            assert(replies.contains_key(holder) && replies[holder] == top);
            assert(replies.contains_key(rank));
            assert forall|r: u32| #[trigger] replies.contains_key(r) implies stamp_le(
                replies[r],
                best,
            ) by {
                if r != rank {
                    assert(rest.contains_key(r));
                    assert(stamp_le(rest[r], top));
                }
            }
        }
    }
    lemma_max_stamp_unique(replies, best);
}

/// Whether `effects` ask for no message to a node: no reply and no
/// broadcast.
pub open spec fn sends_nothing(effects: Seq<Effect>) -> bool {
    forall|i: int|
        0 <= i < effects.len() ==> !(#[trigger] effects[i] is Reply) && !(effects[i] is Broadcast)
}

/// A completed read counts once: with a read pending, the number of pending
/// reads drops by one and nothing else in the node changes; the coordinator
/// is told that the node is done exactly if nothing is pending any more.
/// Without a pending read the completion is refused.
pub proof fn lemma_complete_read(m: NodeModel, key: u64, value: u32)
    ensures
        m.read_count == 0 ==> complete_read(m, key, value) == Err::<
            (NodeModel, Seq<Effect>),
            ProtocolError,
        >(ProtocolError::UnexpectedCompletion),
        m.read_count > 0 ==> ({
            let step = complete_read(m, key, value);
            let (next, effects) = step->Ok_0;
            &&& step is Ok
            &&& next == (NodeModel { read_count: (m.read_count - 1) as u64, ..m })
            &&& effects[0] == (Effect::ReadResponse { key, value })
            &&& effects.len() == (if next.idle() {
                2nat
            } else {
                1nat
            })
            &&& next.idle() ==> effects[1] == Effect::Done
            &&& count_done(effects) == (if next.idle() {
                1nat
            } else {
                0nat
            })
            &&& sends_nothing(effects)
        }),
{
    if m.read_count > 0 {
        let effects = complete_read(m, key, value)->Ok_0.1;
        reveal_with_fuel(count_done, 3);
        assert(effects.drop_last().len() == effects.len() - 1);
        if effects.len() == 2 {
            assert(effects.drop_last().drop_last().len() == 0);
        }
    }
}

/// A completed write counts once: with a write pending, the number of
/// pending writes drops by one and nothing else in the node changes; the
/// coordinator is told that the node is done exactly if nothing is pending
/// any more. Without a pending write the completion is refused.
pub proof fn lemma_complete_write(m: NodeModel, key: u64)
    ensures
        m.write_count == 0 ==> complete_write(m, key) == Err::<
            (NodeModel, Seq<Effect>),
            ProtocolError,
        >(ProtocolError::UnexpectedCompletion),
        m.write_count > 0 ==> ({
            let step = complete_write(m, key);
            let (next, effects) = step->Ok_0;
            &&& step is Ok
            &&& next == (NodeModel { write_count: (m.write_count - 1) as u64, ..m })
            &&& effects[0] == (Effect::WriteResponse { key })
            &&& effects.len() == (if next.idle() {
                2nat
            } else {
                1nat
            })
            &&& next.idle() ==> effects[1] == Effect::Done
            &&& count_done(effects) == (if next.idle() {
                1nat
            } else {
                0nat
            })
            &&& sends_nothing(effects)
        }),
{
    if m.write_count > 0 {
        let effects = complete_write(m, key)->Ok_0.1;
        reveal_with_fuel(count_done, 3);
        assert(effects.drop_last().len() == effects.len() - 1);
        if effects.len() == 2 {
            assert(effects.drop_last().drop_last().len() == 0);
        }
    }
}

/// What a reply to the request in flight does to a node. Let `v` be of the
/// node's iteration, for a key that the node holds, and answer the request
/// in flight on that key.
///
/// Without a quorum, `v` is recorded under its rank, the read takes note of
/// it, and nothing is sent. With a quorum the read phase ends in this step:
/// the replies are forgotten, and either a read is complete, with no write
/// sent, or exactly one write is broadcast. The step is refused, and the
/// node stays as it was, in two cases only: a read would be complete though
/// none is pending, or a write would have to outdo the greatest `ts` there
/// is. No other key is touched, and the stored tag and value of the key
/// change only where a read that skips its write phase stores what it read.
pub proof fn lemma_value_at_node(m: NodeModel, v: Value)
    requires
        m.wf(),
        v.run_id == m.run_id,
        m.slots.contains_key(v.key),
        v.rid == m.slots[v.key].reg.rid,
    ensures
        ({
            let slot = m.slots[v.key];
            let replies = slot.replies.insert(v.sender_rank, (v.ts, v.wr, v.value));
            let reg = noted(slot.reg, slot.replies.len() == 0, v);
            let quorum = replies.dom().len() > m.n / 2;
            let skips = reg.reading && reg.skip_impose;
            let top = max_stamp(replies);
            let step = model_on_value(m, v);
            let next = state_after(m, step);
            &&& !quorum ==> step == Ok::<(NodeModel, Seq<Effect>), ProtocolError>(
                (m.with_slot(v.key, Slot { reg, replies }), Seq::empty()),
            )
            &&& quorum && skips && m.read_count == 0 ==> step == Err::<
                (NodeModel, Seq<Effect>),
                ProtocolError,
            >(ProtocolError::UnexpectedCompletion)
            &&& quorum && skips && m.read_count > 0 ==> {
                &&& step == complete_read(
                    m.with_slot(
                        v.key,
                        Slot {
                            reg: AtomicRegisterState { value: reg.readval, ..reg },
                            replies: Map::empty(),
                        },
                    ),
                    v.key,
                    reg.readval,
                )
                &&& step is Ok
                &&& effects_of(step)[0] == (Effect::ReadResponse { key: v.key, value: reg.readval })
                &&& sends_nothing(effects_of(step))
                &&& next.slots[v.key].reg.skip_impose
                &&& next.slots[v.key].reg.value == reg.readval
                &&& reg.readval == (if slot.replies.len() == 0 {
                    v.value
                } else {
                    slot.reg.readval
                })
            }
            &&& quorum && !skips && !reg.reading && top.0 == u32::MAX ==> step == Err::<
                (NodeModel, Seq<Effect>),
                ProtocolError,
            >(ProtocolError::TimestampExhausted)
            &&& quorum && !skips && (reg.reading || top.0 < u32::MAX) ==> {
                &&& step is Ok
                &&& effects_of(step) == seq![
                    Effect::Broadcast(
                        AtomicRegisterMessage::Write(write_after_quorum(reg, top, v, m.rank)),
                    ),
                ]
                &&& next.slots[v.key].reg == (AtomicRegisterState { readval: top.2, ..reg })
                &&& reg.reading ==> !next.slots[v.key].reg.skip_impose
                &&& next.read_count == m.read_count && next.write_count == m.write_count
            }
            &&& step is Ok && quorum ==> next.slots[v.key].replies == Map::<u32, Stamp>::empty()
            &&& step is Err ==> next == m
            &&& next.slots[v.key].reg.ts == slot.reg.ts && next.slots[v.key].reg.wr == slot.reg.wr
            &&& next.slots[v.key].reg.rid == slot.reg.rid
            &&& forall|k: u64| k != v.key && m.slots.contains_key(k) ==> #[trigger] next.slots[k]
                == m.slots[k]
        }),
{
    let slot = m.slots[v.key];
    let replies = slot.replies.insert(v.sender_rank, (v.ts, v.wr, v.value));
    let reg = noted(slot.reg, slot.replies.len() == 0, v);
    lemma_read_phase_needs_quorum(slot, v, m.n, m.rank);
    let done = AtomicRegisterState { value: reg.readval, ..reg };
    lemma_complete_read(
        m.with_slot(v.key, Slot { reg: done, replies: Map::empty() }),
        v.key,
        reg.readval,
    );
}

/// What an ack of the request in flight does to a node. Let `a` be of the
/// node's iteration, for a key that the node holds, and acknowledge the
/// request in flight on that key.
///
/// If with `a` at most half of the nodes have acknowledged, `a` is counted
/// and nothing else happens. If more than half have, the count starts
/// again at 0 and the operation is complete: a read with the value that its
/// read phase chose, a write without one. The completion is refused, and the
/// node stays as it was, only where no operation of its kind is pending. In
/// no case is a message sent to a node, and the stored tag and value stay.
pub proof fn lemma_ack_at_node(m: NodeModel, a: Ack)
    requires
        m.wf(),
        a.run_id == m.run_id,
        m.slots.contains_key(a.key),
        a.rid == m.slots[a.key].reg.rid,
    ensures
        ({
            let reg = m.slots[a.key].reg;
            let quorum = reg.acks + 1 > m.n / 2;
            let step = model_on_ack(m, a);
            let next = state_after(m, step);
            let waiting = if reg.reading {
                m.read_count
            } else {
                m.write_count
            };
            &&& !quorum ==> step == Ok::<(NodeModel, Seq<Effect>), ProtocolError>(
                (
                    m.with_register(
                        a.key,
                        AtomicRegisterState { acks: (reg.acks + 1) as u32, ..reg },
                    ),
                    Seq::empty(),
                ),
            )
            &&& quorum && waiting == 0 ==> step == Err::<(NodeModel, Seq<Effect>), ProtocolError>(
                ProtocolError::UnexpectedCompletion,
            )
            &&& quorum && waiting > 0 ==> {
                &&& step is Ok
                &&& next.slots[a.key].reg == (AtomicRegisterState { acks: 0, ..reg })
                &&& effects_of(step)[0] == (if reg.reading {
                    Effect::ReadResponse { key: a.key, value: reg.readval }
                } else {
                    Effect::WriteResponse { key: a.key }
                })
                &&& effects_of(step).len() == (if next.idle() {
                    2nat
                } else {
                    1nat
                })
                &&& next.idle() ==> effects_of(step)[1] == Effect::Done
                &&& pending(next) + 1 == pending(m)
            }
            &&& step is Err ==> next == m
            &&& sends_nothing(effects_of(step))
            &&& next.slots[a.key].replies == m.slots[a.key].replies
            &&& next.slots[a.key].reg.ts == reg.ts && next.slots[a.key].reg.wr == reg.wr
                && next.slots[a.key].reg.value == reg.value
            &&& forall|k: u64| k != a.key && m.slots.contains_key(k) ==> #[trigger] next.slots[k]
                == m.slots[k]
        }),
{
    let reg = m.slots[a.key].reg;
    let counted = AtomicRegisterState { acks: 0, ..reg };
    lemma_complete_read(m.with_register(a.key, counted), a.key, reg.readval);
    lemma_complete_write(m.with_register(a.key, counted), a.key);
}

/// A message of another iteration changes nothing in the node.
pub proof fn lemma_stale_message_changes_nothing(m: NodeModel, msg: AtomicRegisterMessage)
    requires
        msg.spec_run_id() != m.run_id,
    ensures
        state_after(m, model_handle(m, msg)) == m,
        model_handle(m, msg) is Ok,
        !(msg is Write) ==> effects_of(model_handle(m, msg)) == Seq::<Effect>::empty(),
{
}

/// A message tells the coordinator at most once that the node is done, and
/// it does so exactly if it completes the last pending operation.
pub proof fn lemma_step_done(m: NodeModel, msg: AtomicRegisterMessage)
    ensures
        ({
            let step = model_handle(m, msg);
            let next = state_after(m, step);
            &&& pending(next) == pending(m) || pending(next) + 1 == pending(m)
            &&& count_done(effects_of(step)) == (if pending(m) > 0 && pending(next) == 0 {
                1nat
            } else {
                0nat
            })
        }),
{
    let step = model_handle(m, msg);
    let effects = effects_of(step);
    reveal_with_fuel(count_done, 3);
    if effects.len() == 2 {
        assert(effects.drop_last().len() == 1);
        assert(effects.drop_last().drop_last().len() == 0);
    } else if effects.len() == 1 {
        assert(effects.drop_last().len() == 0);
    }
}

/// Counting distributes over concatenation.
proof fn lemma_count_done_concat(a: Seq<Effect>, b: Seq<Effect>)
    ensures
        count_done(a + b) == count_done(a) + count_done(b),
    decreases b.len(),
{
    if b.len() == 0 {
        assert(a + b =~= a);
    } else {
        lemma_count_done_concat(a, b.drop_last());
        assert((a + b).drop_last() =~= a + b.drop_last());
        assert((a + b).last() == b.last());
    }
}

/// Over any sequence of messages the node tells the coordinator exactly once
/// that it is done if the messages complete what was pending, and never
/// otherwise.
pub proof fn lemma_done_exactly_once(m: NodeModel, events: Seq<Event>)
    requires
        only_messages(events),
    ensures
        pending(state_after_all(m, events)) <= pending(m),
        count_done(effects_of_all(m, events)) == (if pending(m) > 0 && pending(
            state_after_all(m, events),
        ) == 0 {
            1nat
        } else {
            0nat
        }),
    decreases events.len(),
{
    if events.len() > 0 {
        let before = events.drop_last();
        assert forall|i: int| 0 <= i < before.len() implies #[trigger] before[i] is Message by {
            assert(before[i] == events[i]);
        }
        lemma_done_exactly_once(m, before);
        let mid = state_after_all(m, before);
        assert(events.last() == events[events.len() - 1]);
        let msg = events.last()->Message_0;
        lemma_step_done(mid, msg);
        lemma_count_done_concat(effects_of_all(m, before), effects_of(model_handle(mid, msg)));
    }
}

/// A run invokes exactly the operations it was asked for: one request per
/// operation, each for another key, and the pending counts say how many of
/// each kind. A run of no operation is done at once.
pub proof fn lemma_run_invokes_exactly(m: NodeModel, num_reads: u64, num_writes: u64)
    requires
        m.wf(),
        model_run(m, num_reads, num_writes) is Ok,
    ensures
        ({
            let (next, effects) = model_run(m, num_reads, num_writes)->Ok_0;
            let total = num_reads + num_writes;
            &&& next.read_count == num_reads
            &&& next.write_count == num_writes
            &&& total == 0 ==> effects == seq![Effect::Done]
            &&& total > 0 ==> effects.len() == total && count_done(effects) == 0
            &&& total > 0 ==> forall|i: int|
                0 <= i < total ==> (#[trigger] effects[i] matches Effect::Broadcast(
                    AtomicRegisterMessage::Read(r),
                ) && r.key == m.min_key + i && r.run_id == m.run_id && r.rid == next.slots[r.key].reg.rid)
        }),
{
    let (next, effects) = model_run(m, num_reads, num_writes)->Ok_0;
    let total = num_reads + num_writes;
    if total > 0 {
        lemma_no_done_among_invocations(effects, total as nat);
        assert forall|i: int| 0 <= i < total implies (#[trigger] effects[i] matches Effect::Broadcast(
            AtomicRegisterMessage::Read(r),
        ) && r.key == m.min_key + i && r.run_id == m.run_id && r.rid == next.slots[r.key].reg.rid) by {
            let key = (m.min_key + i) as u64;
            assert(in_range(m.min_key, m.max_key, key));
            assert(m.slots.contains_key(key));
        }
    }
}

/// One run, one notice: over a run and any messages that follow it, the node
/// tells the coordinator exactly once that it is done if every operation of
/// the run is complete in the end, and not at all otherwise.
pub proof fn lemma_one_done_per_run(
    m: NodeModel,
    num_reads: u64,
    num_writes: u64,
    events: Seq<Event>,
)
    requires
        m.wf(),
        model_run(m, num_reads, num_writes) is Ok,
        only_messages(events),
    ensures
        ({
            let (started, invoked) = model_run(m, num_reads, num_writes)->Ok_0;
            count_done(invoked + effects_of_all(started, events)) == (if pending(
                state_after_all(started, events),
            ) == 0 {
                1nat
            } else {
                0nat
            })
        }),
{
    let (started, invoked) = model_run(m, num_reads, num_writes)->Ok_0;
    lemma_run_invokes_exactly(m, num_reads, num_writes);
    lemma_done_exactly_once(started, events);
    lemma_count_done_concat(invoked, effects_of_all(started, events));
    if num_reads + num_writes == 0 {
        assert(invoked.drop_last() =~= Seq::<Effect>::empty());
        reveal_with_fuel(count_done, 2);
    }
}

proof fn lemma_no_done_among_invocations(effects: Seq<Effect>, len: nat)
    requires
        effects.len() == len,
        forall|i: int| 0 <= i < len ==> #[trigger] effects[i] is Broadcast,
    ensures
        count_done(effects) == 0,
    decreases len,
{
    if len > 0 {
        lemma_no_done_among_invocations(effects.drop_last(), (len - 1) as nat);
    }
}

/// Alone, a node is its own quorum: with `n == 1` the first reply to a read
/// completes it with the value of that reply.
pub proof fn lemma_single_node_read(s: Slot, v: Value, rank: u32)
    requires
        s.reg.skip_impose,
        s.reg.rid < u32::MAX,
        v.rid == s.reg.rid + 1,
    ensures
        slot_on_value(slot_invoke_read(s), v, 1, rank).1 == ValueOutcome::ReadComplete(v.value),
        slot_on_value(slot_invoke_read(s), v, 1, rank).0.reg.value == v.value,
{
    let start = slot_invoke_read(s);
    let replies = start.replies.insert(v.sender_rank, (v.ts, v.wr, v.value));
    assert(replies.dom() =~= set![v.sender_rank]);
}

/// Alone, a node is its own quorum: with `n == 1` the first reply to a write
/// makes it broadcast its value under the next tag, and the first ack
/// completes it.
pub proof fn lemma_single_node_write(s: Slot, v: Value, a: Ack, rank: u32)
    requires
        s.reg.rid < u32::MAX,
        v.rid == s.reg.rid + 1,
        a.rid == s.reg.rid + 1,
        v.ts < u32::MAX,
    ensures
        slot_on_value(slot_invoke_write(s, rank), v, 1, rank).1 == ValueOutcome::Impose(
            Write {
                run_id: v.run_id,
                key: v.key,
                rid: v.rid,
                ts: (v.ts + 1) as u32,
                wr: rank,
                value: rank,
            },
        ),
        register_on_ack(slot_on_value(slot_invoke_write(s, rank), v, 1, rank).0.reg, a, 1).1
            == AckOutcome::WriteComplete,
{
    let start = slot_invoke_write(s, rank);
    let stamp = (v.ts, v.wr, v.value);
    let replies = start.replies.insert(v.sender_rank, stamp);
    assert(replies.dom() =~= set![v.sender_rank]);
    assert(replies.contains_key(v.sender_rank));
    lemma_max_stamp_unique(replies, stamp);
}

/// The slot of a node that is alone after it has written: it invoked a
/// write, answered its own request of iteration `run_id` for `key`, stored
/// the write that followed and acknowledged it.
pub open spec fn after_own_write(s: Slot, rank: u32, run_id: u32, key: u64) -> Slot {
    let invoked = slot_invoke_write(s, rank);
    let request = Read { run_id, key, rid: invoked.reg.rid };
    let (collected, outcome) = slot_on_value(
        invoked,
        reply_to_read(invoked.reg, request, rank),
        1,
        rank,
    );
    let write = outcome->Impose_0;
    let stored = register_on_write(collected.reg, write);
    Slot { reg: register_on_ack(stored, ack_of(write), 1).0, replies: collected.replies }
}

/// A node that is alone reads what it wrote: after its write of a key is
/// complete, the register holds the rank of the node under a greater tag, and
/// a read that the node then invokes is complete with that value at its own
/// reply.
pub proof fn lemma_single_node_reads_own_write(s: Slot, rank: u32, run_id: u32, key: u64)
    requires
        s.reg.skip_impose,
        s.reg.ts < u32::MAX,
        s.reg.rid < u32::MAX - 1,
    ensures
        ({
            let written = after_own_write(s, rank, run_id, key);
            let reading = slot_invoke_read(written);
            let request = Read { run_id, key, rid: reading.reg.rid };
            &&& written.reg.ts == s.reg.ts + 1
            &&& written.reg.wr == rank
            &&& written.reg.value == rank
            &&& written.reg.acks == 0
            &&& slot_on_value(reading, reply_to_read(reading.reg, request, rank), 1, rank).1
                == ValueOutcome::ReadComplete(rank)
        }),
{
    let invoked = slot_invoke_write(s, rank);
    let request = Read { run_id, key, rid: invoked.reg.rid };
    let own = reply_to_read(invoked.reg, request, rank);
    let stamp = (own.ts, own.wr, own.value);
    let replies = invoked.replies.insert(own.sender_rank, stamp);
    assert(replies.dom() =~= set![own.sender_rank]);
    assert(replies.contains_key(own.sender_rank));
    lemma_max_stamp_unique(replies, stamp);
    let written = after_own_write(s, rank, run_id, key);
    let reading = slot_invoke_read(written);
    let again = reply_to_read(reading.reg, Read { run_id, key, rid: reading.reg.rid }, rank);
    assert(reading.replies.insert(again.sender_rank, (again.ts, again.wr, again.value)).dom()
        =~= set![again.sender_rank]);
}

/// Of two nodes both must answer: with `n == 2` one reply or one ack is no
/// quorum, and two are.
pub proof fn lemma_two_nodes_need_both(s: Slot, v: Value, reg: AtomicRegisterState, a: Ack, rank: u32)
    requires
        s.replies.dom().finite(),
        v.rid == s.reg.rid,
        a.rid == reg.rid,
    ensures
        !is_quorum(1, 2),
        is_quorum(2, 2),
        s.replies.len() == 0 ==> slot_on_value(s, v, 2, rank).1 == ValueOutcome::Collected,
        s.replies.len() == 1 && !s.replies.contains_key(v.sender_rank) ==> slot_on_value(
            s,
            v,
            2,
            rank,
        ).1 != ValueOutcome::Collected,
        reg.acks == 0 ==> register_on_ack(reg, a, 2).1 == AckOutcome::Counted,
        reg.acks == 1 ==> register_on_ack(reg, a, 2).1 != AckOutcome::Counted,
{
    let replies = s.replies.insert(v.sender_rank, (v.ts, v.wr, v.value));
    assert(replies.dom() =~= s.replies.dom().insert(v.sender_rank));
}

/// A node without keys has nothing to invoke: a run of no operation is done
/// at once and changes no register, and a run of any operation is refused.
pub proof fn lemma_run_without_keys(m: NodeModel, num_reads: u64, num_writes: u64)
    requires
        m.initialised,
        m.max_key < m.min_key,
        m.wf(),
    ensures
        num_reads + num_writes > 0 ==> model_run(m, num_reads, num_writes) == Err::<
            (NodeModel, Seq<Effect>),
            ProtocolError,
        >(ProtocolError::InvalidWorkload),
        effects_of(model_run(m, 0, 0)) == seq![Effect::Done],
        state_after(m, model_run(m, 0, 0)).slots == m.slots,
{
    assert(state_after(m, model_run(m, 0, 0)).slots =~= m.slots);
}

} // verus!
