use atomic_register::atomicregister::messages::{Ack, Read, Value, Write};
use atomic_register::atomicregister::readlist::ReadList;
use atomic_register::atomicregister::register::{AckOutcome, AtomicRegisterState, ValueOutcome};

fn value(rid: u32, ts: u32, wr: u32, value: u32, sender_rank: u32) -> Value {
    Value { run_id: 1, key: 0, rid, ts, wr, value, sender_rank }
}

#[test]
fn new_register_is_zero_with_skip_impose_set() {
    let reg = AtomicRegisterState::new();
    assert_eq!(
        reg,
        AtomicRegisterState {
            ts: 0,
            wr: 0,
            value: 0,
            acks: 0,
            readval: 0,
            writeval: 0,
            rid: 0,
            reading: false,
            first_received_ts: 0,
            skip_impose: true,
        }
    );
}

#[test]
fn invoke_read_takes_a_new_request_id_and_clears() {
    let mut reg = AtomicRegisterState::new();
    reg.acks = 1;
    let mut list = ReadList::new();
    list.insert(3, (1, 1, 1));
    reg.invoke_read(&mut list);
    assert_eq!(reg.rid, 1);
    assert_eq!(reg.acks, 0);
    assert!(reg.reading);
    assert!(list.is_empty());
    reg.invoke_read(&mut list);
    assert_eq!(reg.rid, 2);
}

#[test]
fn invoke_write_writes_the_rank() {
    let mut reg = AtomicRegisterState::new();
    let mut list = ReadList::new();
    list.insert(0, (9, 9, 9));
    reg.invoke_write(&mut list, 7);
    assert_eq!(reg.rid, 1);
    assert_eq!(reg.writeval, 7);
    assert_eq!(reg.acks, 0);
    assert!(!reg.reading);
    assert_eq!(list.len(), 0);
}

#[test]
fn reply_to_read_carries_tag_value_and_rank() {
    let mut reg = AtomicRegisterState::new();
    reg.ts = 4;
    reg.wr = 2;
    reg.value = 77;
    let reply = reg.on_read(Read { run_id: 9, key: 5, rid: 3 }, 1);
    assert_eq!(
        reply,
        Value { run_id: 9, key: 5, rid: 3, ts: 4, wr: 2, value: 77, sender_rank: 1 }
    );
}

#[test]
fn write_is_adopted_iff_its_tag_is_greater() {
    let mut reg = AtomicRegisterState::new();
    let w = |ts, wr, value| Write { run_id: 1, key: 0, rid: 8, ts, wr, value };
    assert_eq!(reg.on_write(w(1, 1, 10)), Ack { run_id: 1, key: 0, rid: 8 });
    assert_eq!((reg.ts, reg.wr, reg.value), (1, 1, 10));
    // equal tag: not adopted
    reg.on_write(w(1, 1, 11));
    assert_eq!((reg.ts, reg.wr, reg.value), (1, 1, 10));
    // same ts, greater writer: adopted
    reg.on_write(w(1, 2, 12));
    assert_eq!((reg.ts, reg.wr, reg.value), (1, 2, 12));
    // smaller ts, greater writer: not adopted
    reg.on_write(w(0, 9, 13));
    assert_eq!((reg.ts, reg.wr, reg.value), (1, 2, 12));
    // same ts, smaller writer: not adopted
    reg.on_write(w(1, 1, 14));
    assert_eq!((reg.ts, reg.wr, reg.value), (1, 2, 12));
    // greater ts, smaller writer: adopted
    reg.on_write(w(2, 0, 15));
    assert_eq!((reg.ts, reg.wr, reg.value), (2, 0, 15));
}

#[test]
fn tags_never_decrease_under_any_order_of_writes() {
    let writes = [(3u32, 1u32), (1, 5), (3, 0), (2, 9), (3, 2), (0, 0), (4, 0), (3, 9)];
    let mut reg = AtomicRegisterState::new();
    let mut last = (reg.ts, reg.wr);
    for (i, (ts, wr)) in writes.iter().enumerate() {
        reg.on_write(Write { run_id: 1, key: 0, rid: 1, ts: *ts, wr: *wr, value: i as u32 });
        assert!((reg.ts, reg.wr) >= last);
        last = (reg.ts, reg.wr);
    }
    assert_eq!(last, (4, 0));
    assert_eq!(reg.value, 6);
}

#[test]
fn stale_value_is_dropped() {
    let mut reg = AtomicRegisterState::new();
    let mut list = ReadList::new();
    reg.invoke_read(&mut list);
    let before = reg;
    assert_eq!(reg.on_value(&mut list, value(7, 1, 1, 1, 0), 3, 0), ValueOutcome::Stale);
    assert_eq!(reg, before);
    assert!(list.is_empty());
}

#[test]
fn read_with_one_ts_skips_the_write_phase() {
    let mut reg = AtomicRegisterState::new();
    let mut list = ReadList::new();
    reg.invoke_read(&mut list);
    assert_eq!(reg.on_value(&mut list, value(1, 1, 2, 50, 0), 3, 0), ValueOutcome::Collected);
    assert_eq!(reg.first_received_ts, 1);
    assert_eq!(reg.readval, 50);
    assert_eq!(list.len(), 1);
    assert_eq!(
        reg.on_value(&mut list, value(1, 1, 2, 50, 1), 3, 0),
        ValueOutcome::ReadComplete(50)
    );
    assert_eq!(reg.value, 50);
    assert!(reg.skip_impose);
    assert!(list.is_empty());
}

#[test]
fn read_with_two_ts_imposes_the_greatest() {
    let mut reg = AtomicRegisterState::new();
    let mut list = ReadList::new();
    reg.invoke_read(&mut list);
    assert_eq!(reg.on_value(&mut list, value(1, 0, 0, 0, 0), 3, 0), ValueOutcome::Collected);
    let out = reg.on_value(&mut list, value(1, 1, 2, 50, 1), 3, 0);
    assert_eq!(
        out,
        ValueOutcome::Impose(Write { run_id: 1, key: 0, rid: 1, ts: 1, wr: 2, value: 50 })
    );
    assert!(!reg.skip_impose);
    assert_eq!(reg.readval, 50);
    assert!(list.is_empty());
}

#[test]
fn greatest_reply_is_lexicographic_in_ts_wr_value() {
    let mut list = ReadList::new();
    list.insert(0, (2, 1, 100));
    list.insert(1, (2, 3, 5));
    list.insert(2, (1, 9, 900));
    list.insert(3, (2, 3, 4));
    assert_eq!(list.max(), (2, 3, 5));
    list.insert(1, (0, 0, 0));
    assert_eq!(list.max(), (2, 3, 4));
    assert_eq!(list.len(), 4);
    assert_eq!(list.get(1), Some((0, 0, 0)));
    assert_eq!(list.get(9), None);
}

#[test]
fn write_installs_the_next_ts_under_its_rank() {
    let mut reg = AtomicRegisterState::new();
    let mut list = ReadList::new();
    reg.invoke_write(&mut list, 2);
    assert_eq!(reg.on_value(&mut list, value(1, 4, 1, 40, 0), 3, 2), ValueOutcome::Collected);
    let out = reg.on_value(&mut list, value(1, 6, 0, 60, 1), 3, 2);
    assert_eq!(
        out,
        ValueOutcome::Impose(Write { run_id: 1, key: 0, rid: 1, ts: 7, wr: 2, value: 2 })
    );
    assert_eq!(reg.readval, 60);
}

#[test]
fn second_reply_of_a_rank_overwrites_and_makes_no_quorum() {
    let mut reg = AtomicRegisterState::new();
    let mut list = ReadList::new();
    reg.invoke_write(&mut list, 0);
    assert_eq!(reg.on_value(&mut list, value(1, 1, 1, 1, 4), 3, 0), ValueOutcome::Collected);
    assert_eq!(reg.on_value(&mut list, value(1, 2, 2, 2, 4), 3, 0), ValueOutcome::Collected);
    assert_eq!(list.len(), 1);
    assert_eq!(list.get(4), Some((2, 2, 2)));
}

#[test]
fn greatest_ts_cannot_be_outdone_by_a_write() {
    let mut reg = AtomicRegisterState::new();
    let mut list = ReadList::new();
    reg.invoke_write(&mut list, 0);
    let before = reg;
    assert_eq!(
        reg.on_value(&mut list, value(1, u32::MAX, 1, 1, 1), 1, 0),
        ValueOutcome::Exhausted
    );
    assert_eq!(reg, before);
    assert!(list.is_empty());
    // a read may see it
    reg.invoke_read(&mut list);
    assert_eq!(
        reg.on_value(&mut list, value(2, u32::MAX, 1, 5, 1), 1, 0),
        ValueOutcome::ReadComplete(5)
    );
}

#[test]
fn quorum_of_five_is_three() {
    let mut reg = AtomicRegisterState::new();
    let mut list = ReadList::new();
    reg.invoke_read(&mut list);
    assert_eq!(reg.on_value(&mut list, value(1, 0, 0, 0, 0), 5, 0), ValueOutcome::Collected);
    assert_eq!(reg.on_value(&mut list, value(1, 0, 0, 0, 1), 5, 0), ValueOutcome::Collected);
    assert_eq!(reg.on_value(&mut list, value(1, 0, 0, 0, 2), 5, 0), ValueOutcome::ReadComplete(0));
    let a = Ack { run_id: 1, key: 0, rid: 1 };
    assert_eq!(reg.on_ack(a, 5), AckOutcome::Counted);
    assert_eq!(reg.acks, 1);
    assert_eq!(reg.on_ack(a, 5), AckOutcome::Counted);
    assert_eq!(reg.acks, 2);
    assert_eq!(reg.on_ack(a, 5), AckOutcome::ReadComplete(0));
    assert_eq!(reg.acks, 0);
}

#[test]
fn quorum_of_four_is_three() {
    let mut reg = AtomicRegisterState::new();
    let mut list = ReadList::new();
    reg.invoke_write(&mut list, 1);
    let a = Ack { run_id: 1, key: 0, rid: 1 };
    assert_eq!(reg.on_ack(a, 4), AckOutcome::Counted);
    assert_eq!(reg.on_ack(a, 4), AckOutcome::Counted);
    assert_eq!(reg.on_ack(a, 4), AckOutcome::WriteComplete);
    assert_eq!(reg.on_ack(a, 4), AckOutcome::Counted);
    assert_eq!(reg.acks, 1);
}

#[test]
fn stale_ack_is_dropped() {
    let mut reg = AtomicRegisterState::new();
    let mut list = ReadList::new();
    reg.invoke_write(&mut list, 1);
    let before = reg;
    assert_eq!(reg.on_ack(Ack { run_id: 1, key: 0, rid: 2 }, 1), AckOutcome::Stale);
    assert_eq!(reg, before);
}

#[test]
fn one_node_is_its_own_quorum() {
    let mut reg = AtomicRegisterState::new();
    let mut list = ReadList::new();
    reg.invoke_read(&mut list);
    assert_eq!(reg.on_value(&mut list, value(1, 0, 0, 9, 0), 1, 0), ValueOutcome::ReadComplete(9));
    reg.invoke_write(&mut list, 0);
    assert_eq!(
        reg.on_value(&mut list, value(2, 0, 0, 9, 0), 1, 0),
        ValueOutcome::Impose(Write { run_id: 1, key: 0, rid: 2, ts: 1, wr: 0, value: 0 })
    );
    assert_eq!(reg.on_ack(Ack { run_id: 1, key: 0, rid: 2 }, 1), AckOutcome::WriteComplete);
}

#[test]
fn two_nodes_must_both_reply() {
    let mut reg = AtomicRegisterState::new();
    let mut list = ReadList::new();
    reg.invoke_read(&mut list);
    assert_eq!(reg.on_value(&mut list, value(1, 0, 0, 0, 0), 2, 0), ValueOutcome::Collected);
    // the same rank again is still one reply
    assert_eq!(reg.on_value(&mut list, value(1, 0, 0, 0, 0), 2, 0), ValueOutcome::Collected);
    assert_eq!(reg.on_value(&mut list, value(1, 0, 0, 0, 1), 2, 0), ValueOutcome::ReadComplete(0));
    let a = Ack { run_id: 1, key: 0, rid: 1 };
    assert_eq!(reg.on_ack(a, 2), AckOutcome::Counted);
    assert_eq!(reg.on_ack(a, 2), AckOutcome::ReadComplete(0));
}

#[test]
fn peek_agrees_with_what_the_reply_does() {
    let mut reg = AtomicRegisterState::new();
    let mut list = ReadList::new();
    reg.invoke_read(&mut list);
    let first = value(1, 3, 0, 30, 0);
    assert!(!reg.value_completes_read(&list, first, 3, 0));
    assert_eq!(reg.on_value(&mut list, first, 3, 0), ValueOutcome::Collected);
    let same = value(1, 3, 1, 31, 1);
    let other = value(1, 4, 1, 41, 1);
    let again = value(1, 3, 0, 30, 0);
    assert!(reg.value_completes_read(&list, same, 3, 0));
    assert!(!reg.value_completes_read(&list, other, 3, 0));
    assert!(!reg.value_completes_read(&list, again, 3, 0));
    assert_eq!(reg.on_value(&mut list, same, 3, 0), ValueOutcome::ReadComplete(30));
}

#[test]
fn greatest_ts_is_recorded_while_there_is_no_quorum() {
    // rank 1 of three writes; rank 0 replies with the greatest ts there is
    let mut reg = AtomicRegisterState::new();
    let mut list = ReadList::new();
    reg.invoke_write(&mut list, 1);
    assert_eq!(
        reg.on_value(&mut list, value(1, u32::MAX, 0, 9, 0), 3, 1),
        ValueOutcome::Collected
    );
    assert_eq!(list.get(0), Some((u32::MAX, 0, 9)));
    assert_eq!(list.len(), 1);
    // with the next reply a quorum is there, and its greatest ts cannot be outdone
    let before = reg;
    assert_eq!(reg.on_value(&mut list, value(1, 0, 0, 0, 1), 3, 1), ValueOutcome::Exhausted);
    assert_eq!(reg, before);
    assert_eq!(list.len(), 1);
    assert_eq!(list.get(0), Some((u32::MAX, 0, 9)));
    assert_eq!(list.get(1), None);
    assert_eq!(reg.on_value(&mut list, value(1, 0, 0, 0, 2), 3, 1), ValueOutcome::Exhausted);
    assert_eq!(list.len(), 1);
    // the rank that reported it may report less: then the write goes on
    assert_eq!(reg.on_value(&mut list, value(1, 5, 2, 9, 0), 3, 1), ValueOutcome::Collected);
    assert_eq!(
        reg.on_value(&mut list, value(1, 0, 0, 0, 2), 3, 1),
        ValueOutcome::Impose(Write { run_id: 1, key: 0, rid: 1, ts: 6, wr: 1, value: 1 })
    );
    assert!(list.is_empty());
}

#[test]
fn refused_reply_leaves_the_earlier_reply_of_its_rank() {
    let mut reg = AtomicRegisterState::new();
    let mut list = ReadList::new();
    reg.invoke_write(&mut list, 0);
    assert_eq!(reg.on_value(&mut list, value(1, 3, 1, 30, 0), 3, 0), ValueOutcome::Collected);
    assert_eq!(
        reg.on_value(&mut list, value(1, u32::MAX, 1, 1, 1), 3, 0),
        ValueOutcome::Exhausted
    );
    assert_eq!(list.len(), 1);
    assert_eq!(list.get(0), Some((3, 1, 30)));
    // a rank that has replied replies again, now with the greatest ts: no
    // new rank, no quorum, the reply takes the place of the first
    assert_eq!(
        reg.on_value(&mut list, value(1, u32::MAX, 1, 1, 0), 3, 0),
        ValueOutcome::Collected
    );
    assert_eq!(list.get(0), Some((u32::MAX, 1, 1)));
}

#[test]
fn read_list_forgets_one_rank() {
    let mut list = ReadList::new();
    list.insert(1, (1, 1, 1));
    list.insert(2, (2, 2, 2));
    list.remove(1);
    assert_eq!(list.get(1), None);
    assert_eq!(list.get(2), Some((2, 2, 2)));
    list.remove(7);
    assert_eq!(list.len(), 1);
}
