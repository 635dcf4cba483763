use atomic_register::atomicregister::actor_atomicregister::AtomicRegister;
use atomic_register::atomicregister::config::{AtomicRegisterMaster, BenchmarkError, LABEL};
use atomic_register::atomicregister::mixed_atomicregister::AtomicRegister as MixedAtomicRegister;
use atomic_register::benchmark_master::{State, StateError, StateHolder};
use atomic_register::netpingpong::{PingPong, PingPongClient, Pinger, PingerAction, Ponger, StaticPong};
use atomic_register::atomicregister::codec::{SerError, TRUNCATED_TEXT};
use atomic_register::partitioning_actor::{copy_paths, Done, InitAck, PartitioningActor};
use atomic_register::partitioning_ser::{
    PartitioningActorSer, PartitioningFrame, DONE_ID, INITACK_ID, INIT_FRAME_LEN, INIT_ID, RUN_ID,
    UNKNOWN_FRAME_TEXT,
};
use atomic_register::serialiser_ids::PARTITIONING_ID;

fn paths(n: usize) -> Vec<String> {
    (0..n).map(|i| format!("node{}", i)).collect()
}

fn ranges(num_keys: u64, n: usize) -> Vec<(u64, u64)> {
    PartitioningActor::with(0, paths(n), num_keys)
        .start()
        .iter()
        .map(|a| (a.init.min_key, a.init.max_key))
        .collect()
}

#[test]
fn keys_are_dealt_out_evenly() {
    assert_eq!(ranges(10, 3), vec![(0, 3), (4, 6), (7, 9)]);
    assert_eq!(ranges(9, 3), vec![(0, 2), (3, 5), (6, 8)]);
    assert_eq!(ranges(11, 3), vec![(0, 3), (4, 7), (8, 10)]);
    assert_eq!(ranges(3, 1), vec![(0, 2)]);
    assert_eq!(ranges(1, 1), vec![(0, 0)]);
    assert_eq!(ranges(u64::MAX, 2), vec![(0, u64::MAX / 2), (u64::MAX / 2 + 1, u64::MAX - 1)]);
}

#[test]
fn node_without_keys_gets_the_empty_range() {
    assert_eq!(ranges(2, 3), vec![(0, 0), (1, 1), (1, 0)]);
    assert_eq!(ranges(0, 2), vec![(1, 0), (1, 0)]);
    assert_eq!(ranges(5, 0), vec![]);
}

#[test]
fn init_names_rank_nodes_and_iteration() {
    let actor = PartitioningActor::with(7, paths(3), 6);
    let out = actor.start();
    assert_eq!(out.len(), 3);
    for (i, a) in out.iter().enumerate() {
        assert_eq!(a.to, format!("node{}", i));
        assert_eq!(a.init.init_id, 7);
        assert_eq!(a.init.rank, i as u32);
        assert_eq!(a.init.nodes, paths(3));
    }
}

#[test]
fn prepare_barrier_opens_with_the_last_ack() {
    let mut actor = PartitioningActor::with(7, paths(3), 6);
    assert!(!actor.on_init_ack(InitAck(7)));
    assert!(!actor.on_init_ack(InitAck(7)));
    assert!(!actor.prepared());
    assert!(actor.on_init_ack(InitAck(7)));
    assert!(actor.prepared());
    // late acks are dropped
    assert!(!actor.on_init_ack(InitAck(7)));
    assert!(actor.prepared());
}

#[test]
fn ack_of_another_iteration_is_dropped() {
    let mut actor = PartitioningActor::with(7, paths(2), 6);
    assert!(!actor.on_init_ack(InitAck(6)));
    assert!(!actor.on_init_ack(InitAck(8)));
    assert!(!actor.on_init_ack(InitAck(7)));
    assert!(!actor.on_init_ack(InitAck(0)));
    assert!(!actor.prepared());
    assert!(actor.on_init_ack(InitAck(7)));
}

#[test]
fn finished_barrier_opens_with_the_last_done() {
    let mut actor = PartitioningActor::with(7, paths(2), 6);
    assert!(!actor.on_done(Done));
    assert!(!actor.finished());
    assert!(actor.on_done(Done));
    assert!(actor.finished());
    assert!(!actor.on_done(Done));
    assert!(actor.finished());
}

#[test]
fn coordinator_of_one_node_opens_at_once() {
    let mut actor = PartitioningActor::with(1, paths(1), 1);
    assert!(actor.on_init_ack(InitAck(1)));
    assert!(actor.on_done(Done));
}

#[test]
fn coordinator_without_nodes_waits_for_nothing() {
    let mut actor = PartitioningActor::with(1, paths(0), 1);
    assert!(!actor.on_init_ack(InitAck(1)));
    assert!(!actor.on_done(Done));
    assert!(!actor.prepared());
    assert!(!actor.finished());
    assert_eq!(actor.run(), Vec::<String>::new());
}

#[test]
fn run_goes_to_every_node() {
    let actor = PartitioningActor::with(1, paths(4), 1);
    assert_eq!(actor.run(), paths(4));
    assert_eq!(copy_paths(&paths(2)), paths(2));
    assert_eq!(PartitioningActorSer.serid(), PARTITIONING_ID);
}

#[test]
fn client_conf_is_two_fields_and_a_comma() {
    assert_eq!(
        AtomicRegister::str_to_client_conf("0.5,0.25"),
        Ok(("0.5".to_string(), "0.25".to_string()))
    );
    assert_eq!(AtomicRegister::str_to_client_conf(","), Ok((String::new(), String::new())));
    assert_eq!(
        MixedAtomicRegister::str_to_client_conf("1,"),
        Ok(("1".to_string(), String::new()))
    );
    assert_eq!(
        AtomicRegister::str_to_client_conf("\u{e9}t\u{e9},\u{fc}"),
        Ok(("\u{e9}t\u{e9}".to_string(), "\u{fc}".to_string()))
    );
    let (read, write) = AtomicRegister::str_to_client_conf("0.5,0.25").unwrap();
    assert_eq!(read.parse::<f32>(), Ok(0.5));
    assert_eq!(write.parse::<f32>(), Ok(0.25));
}

#[test]
fn string_without_exactly_one_comma_is_no_client_conf() {
    for s in ["", "0.5", "1,2,3", ",,", "0.5;0.5"] {
        assert_eq!(
            AtomicRegister::str_to_client_conf(s),
            Err(BenchmarkError::InvalidMessage(format!(
                "String '{}' does not represent a client conf!",
                s
            )))
        );
        assert_eq!(
            MixedAtomicRegister::str_to_client_conf(s),
            AtomicRegister::str_to_client_conf(s)
        );
    }
    let e = AtomicRegister::str_to_client_conf("x").unwrap_err();
    assert_eq!(e.text(), "String 'x' does not represent a client conf!");
}

#[test]
fn client_conf_is_written_with_a_comma() {
    assert_eq!(AtomicRegister::client_conf_to_str("0.5", "0.25"), "0.5,0.25");
    assert_eq!(MixedAtomicRegister::client_conf_to_str("1", "0"), "1,0");
    let text = AtomicRegister::client_conf_to_str(&format!("{}", 0.5f32), &format!("{}", 0.5f32));
    assert_eq!(text, "0.5,0.5");
    assert_eq!(
        AtomicRegister::str_to_client_conf(&text),
        Ok(("0.5".to_string(), "0.5".to_string()))
    );
}

#[test]
fn benchmark_is_called_atomic_register() {
    assert_eq!(AtomicRegister::label(), "AtomicRegister");
    assert_eq!(MixedAtomicRegister::label(), "AtomicRegister");
    assert_eq!(LABEL, "AtomicRegister");
}

#[test]
fn master_numbers_the_iterations() {
    let mut master = AtomicRegister::new_master();
    assert_eq!(master.init_id(), 0);
    assert_eq!(master.setup(3, 10), Ok(()));
    let clients = paths(4);
    let coordinator = master.prepare_iteration("self".to_string(), &clients).unwrap();
    assert_eq!(master.init_id(), 1);
    let inits = coordinator.start();
    let to: Vec<&str> = inits.iter().map(|a| a.to.as_str()).collect();
    assert_eq!(to, vec!["self", "node0", "node1"]);
    assert_eq!(inits[0].init.init_id, 0);
    assert_eq!(inits[0].init.nodes, vec!["self", "node0", "node1"]);
    assert_eq!((inits[2].init.min_key, inits[2].init.max_key), (7, 9));
    master.cleanup_iteration(false);
    let coordinator = master.prepare_iteration("self".to_string(), &clients).unwrap();
    assert_eq!(coordinator.start()[1].init.init_id, 1);
    assert_eq!(master.init_id(), 2);
}

#[test]
fn master_needs_setup_and_enough_clients() {
    let mut master = AtomicRegisterMaster::new();
    assert!(matches!(
        master.prepare_iteration("self".to_string(), &paths(3)),
        Err(BenchmarkError::InvalidTest(_))
    ));
    assert!(matches!(master.setup(0, 10), Err(BenchmarkError::InvalidTest(_))));
    assert!(matches!(
        master.prepare_iteration("self".to_string(), &paths(3)),
        Err(BenchmarkError::InvalidTest(_))
    ));
    assert_eq!(master.setup(3, 10), Ok(()));
    assert!(matches!(
        master.prepare_iteration("self".to_string(), &paths(1)),
        Err(BenchmarkError::InvalidTest(_))
    ));
    assert_eq!(master.init_id(), 0);
    assert!(master.prepare_iteration("self".to_string(), &paths(2)).is_ok());
    master.cleanup_iteration(true);
    assert!(matches!(
        master.prepare_iteration("self".to_string(), &paths(2)),
        Err(BenchmarkError::InvalidTest(_))
    ));
    assert_eq!(master.init_id(), 1);
}

#[test]
fn master_alone_is_a_partition_of_one() {
    let mut master = MixedAtomicRegister::new_master();
    assert_eq!(master.setup(1, 4), Ok(()));
    let coordinator = master.prepare_iteration("self".to_string(), &Vec::new()).unwrap();
    let inits = coordinator.start();
    assert_eq!(inits.len(), 1);
    assert_eq!((inits[0].init.min_key, inits[0].init.max_key), (0, 3));
}

#[test]
fn state_starts_at_init_and_is_assigned() {
    let mut holder = StateHolder::init();
    assert_eq!(holder.get(), State::INIT);
    holder.assign(State::RUN);
    assert_eq!(holder.get(), State::RUN);
}

#[test]
fn state_is_swapped_only_from_the_expected_one() {
    let mut holder = StateHolder::init();
    assert_eq!(holder.cas(State::INIT, State::READY), Ok(()));
    assert_eq!(holder.get(), State::READY);
    assert_eq!(
        holder.cas(State::INIT, State::SETUP),
        Err(StateError::InvalidTransition {
            from: State::READY,
            to: State::SETUP,
            expected: State::INIT
        })
    );
    assert_eq!(holder.get(), State::READY);
    assert_eq!(holder.cas(State::READY, State::SETUP), Ok(()));
    assert_eq!(holder.cas(State::SETUP, State::RUN), Ok(()));
    assert_eq!(holder.cas(State::RUN, State::CLEANUP), Ok(()));
    assert_eq!(holder.cas(State::CLEANUP, State::FINISHED), Ok(()));
    assert_eq!(holder.cas(State::FINISHED, State::FINISHED), Ok(()));
    holder.assign(State::STOPPED);
    assert_eq!(holder.get(), State::STOPPED);
}

#[test]
fn pinger_counts_pongs_down() {
    let mut pinger = Pinger::with(3);
    assert_eq!(pinger.on_start(), PingerAction::SendPing);
    assert_eq!(pinger.on_pong(), PingerAction::SendPing);
    assert_eq!(pinger.on_pong(), PingerAction::SendPing);
    assert_eq!(pinger.on_pong(), PingerAction::Release);
    assert_eq!(pinger.on_pong(), PingerAction::Ignore);
    assert_eq!(Pinger::with(0).on_pong(), PingerAction::Ignore);
    assert_eq!(Pinger::with(1).on_pong(), PingerAction::Release);
}

#[test]
fn ponger_answers_every_ping() {
    assert_eq!(Ponger::new().on_ping(), StaticPong);
}

#[test]
fn ping_pong_client_stops_after_the_last_iteration() {
    let mut client = PingPong::new_client();
    assert!(!client.cleanup_iteration(true));
    assert_eq!(client.setup(), Ponger);
    assert!(!client.cleanup_iteration(false));
    assert!(client.cleanup_iteration(true));
    assert!(!client.cleanup_iteration(true));
    let mut other = PingPongClient::new();
    assert!(!other.cleanup_iteration(false));
}

#[test]
fn ping_pong_has_no_client_conf() {
    assert_eq!(PingPong::label(), "NetPingPong");
    assert_eq!(PingPong::str_to_client_conf("anything"), Ok(()));
    assert_eq!(PingPong::client_conf_to_str(()), "");
}

fn frame_bytes(f: &PartitioningFrame) -> Vec<u8> {
    let mut buf = Vec::new();
    assert_eq!(PartitioningActorSer.serialise(f, &mut buf), Ok(()));
    buf
}

#[test]
fn init_frame_is_29_bytes_of_big_endian_fields() {
    let f = PartitioningFrame::Init {
        init_id: 7,
        rank: 2,
        min_key: 0x0102030405060708,
        max_key: u64::MAX,
        num_nodes: 3,
    };
    let expected: Vec<u8> = vec![
        1, 0, 0, 0, 7, 0, 0, 0, 2, 1, 2, 3, 4, 5, 6, 7, 8, 0xFF, 0xFF, 0xFF, 0xFF, 0xFF, 0xFF,
        0xFF, 0xFF, 0, 0, 0, 3,
    ];
    assert_eq!(frame_bytes(&f), expected);
    assert_eq!(PartitioningActorSer::deserialise(&expected), Ok(f));
    assert_eq!(PartitioningActorSer::encoded_len(&f), 29);
    assert_eq!(INIT_FRAME_LEN, 29);
}

#[test]
fn short_frames_are_exact() {
    assert_eq!(frame_bytes(&PartitioningFrame::InitAck(InitAck(0x01020304))), vec![2, 1, 2, 3, 4]);
    assert_eq!(frame_bytes(&PartitioningFrame::Run), vec![3]);
    assert_eq!(frame_bytes(&PartitioningFrame::Done), vec![4]);
    assert_eq!(
        PartitioningActorSer::deserialise(&[2, 0, 0, 1, 0]),
        Ok(PartitioningFrame::InitAck(InitAck(256)))
    );
    assert_eq!(PartitioningActorSer::deserialise(&[3]), Ok(PartitioningFrame::Run));
    assert_eq!(PartitioningActorSer::deserialise(&[4, 9, 9]), Ok(PartitioningFrame::Done));
    assert_eq!((INIT_ID, INITACK_ID, RUN_ID, DONE_ID), (1, 2, 3, 4));
}

#[test]
fn nodes_begin_behind_the_init_frame() {
    let f = PartitioningFrame::Init { init_id: 1, rank: 0, min_key: 0, max_key: 9, num_nodes: 1 };
    let mut bytes = frame_bytes(&f);
    bytes.extend_from_slice(b"node");
    let decoded = PartitioningActorSer::deserialise(&bytes).unwrap();
    assert_eq!(decoded, f);
    assert_eq!(&bytes[PartitioningActorSer::encoded_len(&decoded)..], b"node");
}

#[test]
fn bad_frames_are_reported() {
    assert_eq!(
        PartitioningActorSer::deserialise(&[]),
        Err(SerError::InvalidData(TRUNCATED_TEXT.to_string()))
    );
    assert_eq!(
        PartitioningActorSer::deserialise(&[2, 0, 0, 0]),
        Err(SerError::InvalidData(TRUNCATED_TEXT.to_string()))
    );
    assert_eq!(
        PartitioningActorSer::deserialise(&[1u8; 28]),
        Err(SerError::InvalidData(TRUNCATED_TEXT.to_string()))
    );
    for tag in [0u8, 5, 0x80, 0xFF] {
        assert_eq!(
            PartitioningActorSer::deserialise(&[tag, 0, 0, 0, 0]),
            Err(SerError::InvalidType(UNKNOWN_FRAME_TEXT.to_string()))
        );
    }
}
