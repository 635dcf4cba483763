//! Wire format of the coordinator's messages.
//!
//! A message starts with one discriminator byte. The fields that follow are
//! fixed-width and big-endian:
//!
//! | message | tag | fields                                                    | bytes |
//! |---------|-----|-----------------------------------------------------------|-------|
//! | Init    | 1   | init_id:u32 rank:u32 min_key:u64 max_key:u64 num_nodes:u32 | 29    |
//! | InitAck | 2   | run_id:u32                                                | 5     |
//! | Run     | 3   |                                                           | 1     |
//! | Done    | 4   |                                                           | 1     |
//!
//! Behind an `Init` follow its `num_nodes` nodes, each as the transport
//! writes a node. They are no part of the frame: this codec says where they
//! begin.

use crate::atomicregister::big_endian::{
    get_u32_be, get_u64_be, lemma_u32_be_round_trip, lemma_u32_from_be_round_trip,
    lemma_u64_be_round_trip, lemma_u64_from_be_round_trip, put_u32_be, put_u64_be, u32_be,
    u32_from_be, u64_be, u64_from_be,
};
use crate::atomicregister::codec::{DecodeFailure, SerError, OVERLONG_TEXT, TRUNCATED_TEXT};
use crate::partitioning_actor::InitAck;
use crate::serialiser_ids::PARTITIONING_ID;
use vstd::prelude::*;

verus! {

pub const INIT_ID: i8 = 1;

pub const INITACK_ID: i8 = 2;

pub const RUN_ID: i8 = 3;

pub const DONE_ID: i8 = 4;

/// Length of the longest frame, that of an `Init`.
pub const INIT_FRAME_LEN: usize = 29;

/// Text of the error for a discriminator that names no message.
pub const UNKNOWN_FRAME_TEXT: &'static str =
    "Found unknown id, but expected Init, InitAck, Run or Done.";

/// The fixed part of a message of the coordinator.
#[derive(Clone, Copy, Debug, PartialEq, Eq, Structural)]
pub enum PartitioningFrame {
    /// An `Init` without its nodes, of which there are `num_nodes`.
    Init { init_id: u32, rank: u32, min_key: u64, max_key: u64, num_nodes: u32 },
    InitAck(InitAck),
    Run,
    Done,
}

/// The bytes that stand for `f` on the wire.
pub open spec fn spec_serialise_frame(f: PartitioningFrame) -> Seq<u8> {
    match f {
        PartitioningFrame::Init { init_id, rank, min_key, max_key, num_nodes } => seq![1u8]
            + u32_be(init_id) + u32_be(rank) + u64_be(min_key) + u64_be(max_key) + u32_be(
            num_nodes,
        ),
        PartitioningFrame::InitAck(ack) => seq![2u8] + u32_be(ack.0),
        PartitioningFrame::Run => seq![3u8],
        PartitioningFrame::Done => seq![4u8],
    }
}

/// Number of bytes that `f` takes on the wire.
pub open spec fn frame_len(f: PartitioningFrame) -> nat {
    match f {
        PartitioningFrame::Init { .. } => 29,
        PartitioningFrame::InitAck(_) => 5,
        PartitioningFrame::Run => 1,
        PartitioningFrame::Done => 1,
    }
}

/// Number of bytes of the frame that starts with discriminator `tag`, if
/// `tag` names a message.
pub open spec fn tag_frame_len(tag: u8) -> Option<nat> {
    if tag == 1 {
        Some(29)
    } else if tag == 2 {
        Some(5)
    } else if tag == 3 || tag == 4 {
        Some(1)
    } else {
        None
    }
}

/// The frame at the front of `b`; bytes behind it are not looked at.
///
/// An empty buffer is truncated. Otherwise the first byte decides: a byte
/// that is no discriminator is an unknown tag whatever follows, and a known
/// one needs the whole length of its frame.
pub open spec fn spec_deserialise_frame(b: Seq<u8>) -> Result<PartitioningFrame, DecodeFailure> {
    if b.len() == 0 {
        Err(DecodeFailure::Truncated)
    } else {
        match tag_frame_len(b[0]) {
            None => Err(DecodeFailure::UnknownTag),
            Some(len) => if b.len() < len {
                Err(DecodeFailure::Truncated)
            } else if b[0] == 1 {
                Ok(
                    PartitioningFrame::Init {
                        init_id: u32_from_be(b.subrange(1, 5)),
                        rank: u32_from_be(b.subrange(5, 9)),
                        min_key: u64_from_be(b.subrange(9, 17)),
                        max_key: u64_from_be(b.subrange(17, 25)),
                        num_nodes: u32_from_be(b.subrange(25, 29)),
                    },
                )
            } else if b[0] == 2 {
                Ok(PartitioningFrame::InitAck(InitAck(u32_from_be(b.subrange(1, 5)))))
            } else if b[0] == 3 {
                Ok(PartitioningFrame::Run)
            } else {
                Ok(PartitioningFrame::Done)
            },
        }
    }
}

/// Whether `e` is the error that decoding gives for `failure`.
pub open spec fn reports_frame(e: SerError, failure: DecodeFailure) -> bool {
    match failure {
        DecodeFailure::Truncated => e is InvalidData && e.spec_text() == TRUNCATED_TEXT@,
        DecodeFailure::Overlong => e is InvalidData && e.spec_text() == OVERLONG_TEXT@,
        DecodeFailure::UnknownTag => e is InvalidType && e.spec_text() == UNKNOWN_FRAME_TEXT@,
    }
}

/// The serialiser of the coordinator's messages.
#[derive(Clone, Copy, Debug)]
pub struct PartitioningActorSer;

impl PartitioningActorSer {
    /// The identifier under which the coordinator's messages travel.
    pub fn serid(&self) -> (id: u64)
        ensures
            id == PARTITIONING_ID,
    {
        PARTITIONING_ID
    }

    /// Appends the encoding of `frame` to `buf`. Encoding never fails.
    pub fn serialise(&self, frame: &PartitioningFrame, buf: &mut Vec<u8>) -> (res: Result<
        (),
        SerError,
    >)
        ensures
            res is Ok,
            final(buf)@ == old(buf)@ + spec_serialise_frame(*frame),
    {
        match frame {
            PartitioningFrame::Init { init_id, rank, min_key, max_key, num_nodes } => {
                buf.push(1u8);
                put_u32_be(buf, *init_id);
                put_u32_be(buf, *rank);
                put_u64_be(buf, *min_key);
                put_u64_be(buf, *max_key);
                put_u32_be(buf, *num_nodes);
            },
            PartitioningFrame::InitAck(ack) => {
                buf.push(2u8);
                put_u32_be(buf, ack.0);
            },
            PartitioningFrame::Run => {
                buf.push(3u8);
            },
            PartitioningFrame::Done => {
                buf.push(4u8);
            },
        }
        assert(buf@ =~= old(buf)@ + spec_serialise_frame(*frame));
        Ok(())
    }

    /// Decodes the frame at the front of `buf`.
    ///
    /// Fails with `InvalidType` on a discriminator that names no message, and
    /// with `InvalidData` on a buffer that is empty or ends inside the frame.
    pub fn deserialise(buf: &[u8]) -> (res: Result<PartitioningFrame, SerError>)
        ensures
            match spec_deserialise_frame(buf@) {
                Ok(f) => res == Ok::<PartitioningFrame, SerError>(f),
                Err(failure) => res is Err && reports_frame(res->Err_0, failure),
            },
    {
        let len: usize = buf.len();
        if len == 0 {
            return Err(SerError::InvalidData(TRUNCATED_TEXT.to_owned()));
        }
        let tag: u8 = buf[0];
        if tag < 1 || tag > 4 {
            return Err(SerError::InvalidType(UNKNOWN_FRAME_TEXT.to_owned()));
        }
        if tag == 3 {
            return Ok(PartitioningFrame::Run);
        }
        if tag == 4 {
            return Ok(PartitioningFrame::Done);
        }
        if tag == 2 {
            if len < 5 {
                return Err(SerError::InvalidData(TRUNCATED_TEXT.to_owned()));
            }
            return Ok(PartitioningFrame::InitAck(InitAck(get_u32_be(buf, 1))));
        }
        if len < 29 {
            return Err(SerError::InvalidData(TRUNCATED_TEXT.to_owned()));
        }
        let init_id: u32 = get_u32_be(buf, 1);
        let rank: u32 = get_u32_be(buf, 5);
        let min_key: u64 = get_u64_be(buf, 9);
        let max_key: u64 = get_u64_be(buf, 17);
        let num_nodes: u32 = get_u32_be(buf, 25);
        Ok(PartitioningFrame::Init { init_id, rank, min_key, max_key, num_nodes })
    }

    /// Number of bytes that `frame` takes on the wire; the nodes of an
    /// `Init` begin at this index.
    pub fn encoded_len(frame: &PartitioningFrame) -> (len: usize)
        ensures
            len == frame_len(*frame),
            len == spec_serialise_frame(*frame).len(),
            len <= INIT_FRAME_LEN,
    {
        match frame {
            PartitioningFrame::Init { .. } => 29,
            PartitioningFrame::InitAck(_) => 5,
            PartitioningFrame::Run => 1,
            PartitioningFrame::Done => 1,
        }
    }
}

#[verifier::rlimit(50)]
proof fn lemma_init_parts(
    tag: Seq<u8>,
    a: Seq<u8>,
    b: Seq<u8>,
    c: Seq<u8>,
    d: Seq<u8>,
    e: Seq<u8>,
)
    requires
        tag.len() == 1,
        a.len() == 4,
        b.len() == 4,
        c.len() == 8,
        d.len() == 8,
        e.len() == 4,
    ensures
        (tag + a + b + c + d + e).len() == 29,
        (tag + a + b + c + d + e)[0] == tag[0],
        (tag + a + b + c + d + e).subrange(1, 5) == a,
        (tag + a + b + c + d + e).subrange(5, 9) == b,
        (tag + a + b + c + d + e).subrange(9, 17) == c,
        (tag + a + b + c + d + e).subrange(17, 25) == d,
        (tag + a + b + c + d + e).subrange(25, 29) == e,
{
    let all = tag + a + b + c + d + e;
    assert(all.subrange(1, 5) =~= a);
    assert(all.subrange(5, 9) =~= b);
    assert(all.subrange(9, 17) =~= c);
    assert(all.subrange(17, 25) =~= d);
    assert(all.subrange(25, 29) =~= e);
}

/// Decoding the encoding of a frame gives the frame back.
pub proof fn lemma_deserialise_serialise_frame(f: PartitioningFrame)
    ensures
        spec_serialise_frame(f).len() == frame_len(f),
        spec_deserialise_frame(spec_serialise_frame(f)) == Ok::<PartitioningFrame, DecodeFailure>(
            f,
        ),
{
    match f {
        PartitioningFrame::Init { init_id, rank, min_key, max_key, num_nodes } => {
            lemma_u32_be_round_trip(init_id);
            lemma_u32_be_round_trip(rank);
            lemma_u64_be_round_trip(min_key);
            lemma_u64_be_round_trip(max_key);
            lemma_u32_be_round_trip(num_nodes);
            lemma_init_parts(
                seq![1u8],
                u32_be(init_id),
                u32_be(rank),
                u64_be(min_key),
                u64_be(max_key),
                u32_be(num_nodes),
            );
        },
        PartitioningFrame::InitAck(ack) => {
            lemma_u32_be_round_trip(ack.0);
            let b = seq![2u8] + u32_be(ack.0);
            assert(b.subrange(1, 5) =~= u32_be(ack.0));
        },
        PartitioningFrame::Run => {},
        PartitioningFrame::Done => {},
    }
}

/// Encoding what was decoded from `b` gives back the bytes that were read:
/// the front of `b`, as long as the frame.
#[verifier::rlimit(50)]
pub proof fn lemma_serialise_deserialise_frame(b: Seq<u8>)
    requires
        spec_deserialise_frame(b) is Ok,
    ensures
        frame_len(spec_deserialise_frame(b)->Ok_0) <= b.len(),
        spec_serialise_frame(spec_deserialise_frame(b)->Ok_0) == b.subrange(
            0,
            frame_len(spec_deserialise_frame(b)->Ok_0) as int,
        ),
{
    let f = spec_deserialise_frame(b)->Ok_0;
    match f {
        PartitioningFrame::Init { .. } => {
            lemma_u32_from_be_round_trip(b.subrange(1, 5));
            lemma_u32_from_be_round_trip(b.subrange(5, 9));
            lemma_u64_from_be_round_trip(b.subrange(9, 17));
            lemma_u64_from_be_round_trip(b.subrange(17, 25));
            lemma_u32_from_be_round_trip(b.subrange(25, 29));
            assert(seq![1u8] + b.subrange(1, 5) + b.subrange(5, 9) + b.subrange(9, 17)
                + b.subrange(17, 25) + b.subrange(25, 29) =~= b.subrange(0, 29));
        },
        PartitioningFrame::InitAck(_) => {
            lemma_u32_from_be_round_trip(b.subrange(1, 5));
            assert(seq![2u8] + b.subrange(1, 5) =~= b.subrange(0, 5));
        },
        PartitioningFrame::Run => {
            assert(seq![3u8] =~= b.subrange(0, 1));
        },
        PartitioningFrame::Done => {
            assert(seq![4u8] =~= b.subrange(0, 1));
        },
    }
}

} // verus!
