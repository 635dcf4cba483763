//! Wire format of the register protocol.
//!
//! A message is one discriminator byte followed by fixed-width big-endian
//! fields:
//!
//! | message | tag | fields                                             | bytes |
//! |---------|-----|----------------------------------------------------|-------|
//! | Read    | 1   | run_id:u32 key:u64 rid:u32                         | 17    |
//! | Write   | 2   | run_id:u32 key:u64 rid:u32 ts:u32 wr:u32 value:u32 | 29    |
//! | Value   | 3   | as Write, then sender_rank:u32                     | 33    |
//! | Ack     | 4   | run_id:u32 key:u64 rid:u32                         | 17    |

use crate::atomicregister::big_endian::{
    get_u32_be, get_u64_be, lemma_u32_be_round_trip, lemma_u32_from_be_round_trip,
    lemma_u64_be_round_trip, lemma_u64_from_be_round_trip, put_u32_be, put_u64_be, u32_be,
    u32_from_be, u64_be, u64_from_be,
};
use crate::atomicregister::messages::{Ack, AtomicRegisterMessage, Read, Value, Write};
use crate::serialiser_ids::ATOMICREG_ID;
use vstd::prelude::*;

verus! {

pub const READ_ID: i8 = 1;

pub const WRITE_ID: i8 = 2;

pub const VALUE_ID: i8 = 3;

pub const ACK_ID: i8 = 4;

/// Length of the longest message, a `Value`.
pub const MAX_WIRE_LEN: usize = 33;

/// Text of the error for a discriminator that names no message.
pub const UNKNOWN_ID_TEXT: &'static str = "Found unkown id, but expected Read, Value, Write or Ack.";

/// Text of the error for a buffer that ends inside a message.
pub const TRUNCATED_TEXT: &'static str = "Buffer ends before the message does.";

/// Text of the error for a buffer that goes on behind a message.
pub const OVERLONG_TEXT: &'static str = "Buffer goes on behind the message.";

/// Why bytes could not be turned into a message, or a message into bytes.
#[derive(Clone, Debug, PartialEq, Eq)]
pub enum SerError {
    /// The bytes are not one whole message.
    InvalidData(String),
    /// The discriminator names no message.
    InvalidType(String),
}

/// The ways in which decoding fails.
#[derive(Clone, Copy, Debug, PartialEq, Eq, Structural)]
pub enum DecodeFailure {
    /// The buffer is empty or ends before the last field.
    Truncated,
    /// The buffer holds bytes behind the last field.
    Overlong,
    /// The first byte is none of the four discriminators.
    UnknownTag,
}

impl SerError {
    /// The text carried by the error.
    pub open spec fn spec_text(self) -> Seq<char> {
        match self {
            SerError::InvalidData(s) => s@,
            SerError::InvalidType(s) => s@,
        }
    }

    /// The text carried by the error.
    pub fn text(&self) -> (t: &String)
        ensures
            t@ == self.spec_text(),
    {
        match self {
            SerError::InvalidData(s) => s,
            SerError::InvalidType(s) => s,
        }
    }

    /// Whether this is the error that decoding gives for `failure`.
    pub open spec fn reports(self, failure: DecodeFailure) -> bool {
        match failure {
            DecodeFailure::Truncated => self is InvalidData && self.spec_text() == TRUNCATED_TEXT@,
            DecodeFailure::Overlong => self is InvalidData && self.spec_text() == OVERLONG_TEXT@,
            DecodeFailure::UnknownTag => self is InvalidType && self.spec_text() == UNKNOWN_ID_TEXT@,
        }
    }
}

/// The three fields that every message starts with, after the discriminator.
pub open spec fn header_bytes(run_id: u32, key: u64, rid: u32) -> Seq<u8> {
    u32_be(run_id) + u64_be(key) + u32_be(rid)
}

/// The tag and value carried by `Write` and `Value`.
pub open spec fn payload_bytes(ts: u32, wr: u32, value: u32) -> Seq<u8> {
    u32_be(ts) + u32_be(wr) + u32_be(value)
}

/// The bytes that stand for `m` on the wire.
pub open spec fn spec_serialise(m: AtomicRegisterMessage) -> Seq<u8> {
    match m {
        AtomicRegisterMessage::Read(r) => seq![1u8] + header_bytes(r.run_id, r.key, r.rid),
        AtomicRegisterMessage::Write(w) => seq![2u8] + header_bytes(w.run_id, w.key, w.rid)
            + payload_bytes(w.ts, w.wr, w.value),
        AtomicRegisterMessage::Value(v) => seq![3u8] + header_bytes(v.run_id, v.key, v.rid)
            + payload_bytes(v.ts, v.wr, v.value) + u32_be(v.sender_rank),
        AtomicRegisterMessage::Ack(a) => seq![4u8] + header_bytes(a.run_id, a.key, a.rid),
    }
}

/// Number of bytes that `m` takes on the wire.
pub open spec fn wire_len(m: AtomicRegisterMessage) -> nat {
    match m {
        AtomicRegisterMessage::Read(_) => 17,
        AtomicRegisterMessage::Write(_) => 29,
        AtomicRegisterMessage::Value(_) => 33,
        AtomicRegisterMessage::Ack(_) => 17,
    }
}

/// Number of bytes of the message that starts with discriminator `tag`, if
/// `tag` names a message.
pub open spec fn tag_wire_len(tag: u8) -> Option<nat> {
    if tag == 1 || tag == 4 {
        Some(17)
    } else if tag == 2 {
        Some(29)
    } else if tag == 3 {
        Some(33)
    } else {
        None
    }
}

/// The 32-bit field that starts at index `at` of `b`.
pub open spec fn field32(b: Seq<u8>, at: int) -> u32 {
    u32_from_be(b.subrange(at, at + 4))
}

/// The 64-bit field that starts at index `at` of `b`.
pub open spec fn field64(b: Seq<u8>, at: int) -> u64 {
    u64_from_be(b.subrange(at, at + 8))
}

/// The message that `b` holds, where `b` is one whole message and nothing
/// else.
///
/// An empty buffer is truncated. Otherwise the first byte decides: a byte that
/// is no discriminator is an unknown tag whatever follows, and a known one
/// asks for exactly the length of its message: a shorter buffer is truncated,
/// a longer one is overlong.
pub open spec fn spec_deserialise(b: Seq<u8>) -> Result<AtomicRegisterMessage, DecodeFailure> {
    if b.len() == 0 {
        Err(DecodeFailure::Truncated)
    } else {
        match tag_wire_len(b[0]) {
            None => Err(DecodeFailure::UnknownTag),
            Some(len) => if b.len() < len {
                Err(DecodeFailure::Truncated)
            } else if b.len() > len {
                Err(DecodeFailure::Overlong)
            } else if b[0] == 1 {
                Ok(
                    AtomicRegisterMessage::Read(
                        Read { run_id: field32(b, 1), key: field64(b, 5), rid: field32(b, 13) },
                    ),
                )
            } else if b[0] == 2 {
                Ok(
                    AtomicRegisterMessage::Write(
                        Write {
                            run_id: field32(b, 1),
                            key: field64(b, 5),
                            rid: field32(b, 13),
                            ts: field32(b, 17),
                            wr: field32(b, 21),
                            value: field32(b, 25),
                        },
                    ),
                )
            } else if b[0] == 3 {
                Ok(
                    AtomicRegisterMessage::Value(
                        Value {
                            run_id: field32(b, 1),
                            key: field64(b, 5),
                            rid: field32(b, 13),
                            ts: field32(b, 17),
                            wr: field32(b, 21),
                            value: field32(b, 25),
                            sender_rank: field32(b, 29),
                        },
                    ),
                )
            } else {
                Ok(
                    AtomicRegisterMessage::Ack(
                        Ack { run_id: field32(b, 1), key: field64(b, 5), rid: field32(b, 13) },
                    ),
                )
            },
        }
    }
}

/// The serialiser of register messages.
#[derive(Clone, Copy, Debug)]
pub struct AtomicRegisterSer;

fn put_header(buf: &mut Vec<u8>, run_id: u32, key: u64, rid: u32)
    ensures
        final(buf)@ == old(buf)@ + header_bytes(run_id, key, rid),
{
    put_u32_be(buf, run_id);
    put_u64_be(buf, key);
    put_u32_be(buf, rid);
    assert(buf@ =~= old(buf)@ + header_bytes(run_id, key, rid));
}

fn put_payload(buf: &mut Vec<u8>, ts: u32, wr: u32, value: u32)
    ensures
        final(buf)@ == old(buf)@ + payload_bytes(ts, wr, value),
{
    put_u32_be(buf, ts);
    put_u32_be(buf, wr);
    put_u32_be(buf, value);
    assert(buf@ =~= old(buf)@ + payload_bytes(ts, wr, value));
}

impl AtomicRegisterSer {
    /// The identifier under which register messages travel.
    pub fn serid(&self) -> (id: u64)
        ensures
            id == ATOMICREG_ID,
    {
        ATOMICREG_ID
    }

    /// An upper bound on the encoded length of any message.
    pub fn size_hint(&self) -> (hint: Option<usize>)
        ensures
            hint == Some(MAX_WIRE_LEN),
            forall|m: AtomicRegisterMessage| #[trigger] spec_serialise(m).len() <= MAX_WIRE_LEN,
    {
        proof {
            assert forall|m: AtomicRegisterMessage| #[trigger]
                spec_serialise(m).len() <= MAX_WIRE_LEN by {
                lemma_serialised_len(m);
            }
        }
        Some(MAX_WIRE_LEN)
    }

    /// Appends the encoding of `enm` to `buf`. Encoding never fails.
    pub fn serialise(&self, enm: &AtomicRegisterMessage, buf: &mut Vec<u8>) -> (res: Result<
        (),
        SerError,
    >)
        ensures
            res is Ok,
            final(buf)@ == old(buf)@ + spec_serialise(*enm),
    {
        match enm {
            AtomicRegisterMessage::Read(r) => {
                buf.push(1u8);
                put_header(buf, r.run_id, r.key, r.rid);
            },
            AtomicRegisterMessage::Value(v) => {
                buf.push(3u8);
                put_header(buf, v.run_id, v.key, v.rid);
                put_payload(buf, v.ts, v.wr, v.value);
                put_u32_be(buf, v.sender_rank);
            },
            AtomicRegisterMessage::Write(w) => {
                buf.push(2u8);
                put_header(buf, w.run_id, w.key, w.rid);
                put_payload(buf, w.ts, w.wr, w.value);
            },
            AtomicRegisterMessage::Ack(a) => {
                buf.push(4u8);
                put_header(buf, a.run_id, a.key, a.rid);
            },
        }
        assert(buf@ =~= old(buf)@ + spec_serialise(*enm));
        Ok(())
    }

    /// Decodes `buf`, which has to hold one message and nothing else.
    ///
    /// Fails with `InvalidType` on a discriminator that names no message, and
    /// with `InvalidData` on a buffer that is empty, ends inside the message
    /// or goes on behind it.
    pub fn deserialise(buf: &[u8]) -> (res: Result<AtomicRegisterMessage, SerError>)
        ensures
            match spec_deserialise(buf@) {
                Ok(m) => res == Ok::<AtomicRegisterMessage, SerError>(m),
                Err(failure) => res is Err && res->Err_0.reports(failure),
            },
    {
        let len: usize = buf.len();
        if len == 0 {
            return Err(SerError::InvalidData(TRUNCATED_TEXT.to_owned()));
        }
        let tag: u8 = buf[0];
        if tag < 1 || tag > 4 {
            return Err(SerError::InvalidType(UNKNOWN_ID_TEXT.to_owned()));
        }
        let need: usize = if tag == 2 {
            29
        } else if tag == 3 {
            33
        } else {
            17
        };
        if len < need {
            return Err(SerError::InvalidData(TRUNCATED_TEXT.to_owned()));
        }
        if len > need {
            return Err(SerError::InvalidData(OVERLONG_TEXT.to_owned()));
        }
        let run_id: u32 = get_u32_be(buf, 1);
        let key: u64 = get_u64_be(buf, 5);
        let rid: u32 = get_u32_be(buf, 13);
        if tag == 1 {
            Ok(AtomicRegisterMessage::Read(Read { run_id, key, rid }))
        } else if tag == 4 {
            Ok(AtomicRegisterMessage::Ack(Ack { run_id, key, rid }))
        } else {
            let ts: u32 = get_u32_be(buf, 17);
            let wr: u32 = get_u32_be(buf, 21);
            let value: u32 = get_u32_be(buf, 25);
            if tag == 2 {
                Ok(AtomicRegisterMessage::Write(Write { run_id, key, rid, ts, wr, value }))
            } else {
                let sender_rank: u32 = get_u32_be(buf, 29);
                Ok(
                    AtomicRegisterMessage::Value(
                        Value { run_id, key, rid, ts, wr, value, sender_rank },
                    ),
                )
            }
        }
    }

    /// Number of bytes that `enm` takes on the wire.
    pub fn encoded_len(enm: &AtomicRegisterMessage) -> (len: usize)
        ensures
            len == wire_len(*enm),
            len == spec_serialise(*enm).len(),
            len <= MAX_WIRE_LEN,
    {
        proof {
            lemma_serialised_len(*enm);
        }
        match enm {
            AtomicRegisterMessage::Read(_) => 17,
            AtomicRegisterMessage::Write(_) => 29,
            AtomicRegisterMessage::Value(_) => 33,
            AtomicRegisterMessage::Ack(_) => 17,
        }
    }
}

/// Every message has the length that its kind fixes, and starts with its
/// discriminator.
pub proof fn lemma_serialised_len(m: AtomicRegisterMessage)
    ensures
        spec_serialise(m).len() == wire_len(m),
        1 <= spec_serialise(m)[0] <= 4,
        tag_wire_len(spec_serialise(m)[0]) == Some(wire_len(m)),
        wire_len(m) <= MAX_WIRE_LEN,
{
}

#[verifier::rlimit(50)]
proof fn lemma_header_fields(b: Seq<u8>, run_id: u32, key: u64, rid: u32)
    requires
        b.len() >= 17,
        b.subrange(1, 17) == header_bytes(run_id, key, rid),
    ensures
        field32(b, 1) == run_id,
        field64(b, 5) == key,
        field32(b, 13) == rid,
{
    let h = b.subrange(1, 17);
    assert(b.subrange(1, 5) =~= h.subrange(0, 4));
    assert(b.subrange(5, 13) =~= h.subrange(4, 12));
    assert(b.subrange(13, 17) =~= h.subrange(12, 16));
    lemma_u32_be_round_trip(run_id);
    lemma_u64_be_round_trip(key);
    lemma_u32_be_round_trip(rid);
    assert(h.subrange(0, 4) =~= u32_be(run_id));
    assert(h.subrange(4, 12) =~= u64_be(key));
    assert(h.subrange(12, 16) =~= u32_be(rid));
}

#[verifier::rlimit(50)]
proof fn lemma_payload_fields(b: Seq<u8>, ts: u32, wr: u32, value: u32)
    requires
        b.len() >= 29,
        b.subrange(17, 29) == payload_bytes(ts, wr, value),
    ensures
        field32(b, 17) == ts,
        field32(b, 21) == wr,
        field32(b, 25) == value,
{
    let p = b.subrange(17, 29);
    assert(b.subrange(17, 21) =~= p.subrange(0, 4));
    assert(b.subrange(21, 25) =~= p.subrange(4, 8));
    assert(b.subrange(25, 29) =~= p.subrange(8, 12));
    lemma_u32_be_round_trip(ts);
    lemma_u32_be_round_trip(wr);
    lemma_u32_be_round_trip(value);
    assert(p.subrange(0, 4) =~= u32_be(ts));
    assert(p.subrange(4, 8) =~= u32_be(wr));
    assert(p.subrange(8, 12) =~= u32_be(value));
}

#[verifier::rlimit(50)]
proof fn lemma_concat_parts(
    tag: Seq<u8>,
    header: Seq<u8>,
    payload: Seq<u8>,
    rank: Seq<u8>,
)
    requires
        tag.len() == 1,
        header.len() == 16,
        payload.len() == 12,
        rank.len() == 4,
    ensures
        (tag + header).subrange(1, 17) == header,
        (tag + header + payload).subrange(1, 17) == header,
        (tag + header + payload).subrange(17, 29) == payload,
        (tag + header + payload + rank).subrange(1, 17) == header,
        (tag + header + payload + rank).subrange(17, 29) == payload,
        (tag + header + payload + rank).subrange(29, 33) == rank,
        (tag + header)[0] == tag[0],
        (tag + header + payload)[0] == tag[0],
        (tag + header + payload + rank)[0] == tag[0],
{
    assert((tag + header).subrange(1, 17) =~= header);
    assert((tag + header + payload).subrange(1, 17) =~= header);
    assert((tag + header + payload).subrange(17, 29) =~= payload);
    assert((tag + header + payload + rank).subrange(1, 17) =~= header);
    assert((tag + header + payload + rank).subrange(17, 29) =~= payload);
    assert((tag + header + payload + rank).subrange(29, 33) =~= rank);
}

proof fn lemma_part_lens(run_id: u32, key: u64, rid: u32, ts: u32, wr: u32, value: u32)
    ensures
        header_bytes(run_id, key, rid).len() == 16,
        payload_bytes(ts, wr, value).len() == 12,
{
}

proof fn lemma_read_round_trip(r: Read)
    ensures
        spec_deserialise(spec_serialise(AtomicRegisterMessage::Read(r))) == Ok::<
            AtomicRegisterMessage,
            DecodeFailure,
        >(AtomicRegisterMessage::Read(r)),
{
    let b = spec_serialise(AtomicRegisterMessage::Read(r));
    let header = header_bytes(r.run_id, r.key, r.rid);
    lemma_part_lens(r.run_id, r.key, r.rid, 0, 0, 0);
    lemma_concat_parts(seq![1u8], header, payload_bytes(0, 0, 0), u32_be(0));
    lemma_header_fields(b, r.run_id, r.key, r.rid);
}

proof fn lemma_ack_round_trip(a: Ack)
    ensures
        spec_deserialise(spec_serialise(AtomicRegisterMessage::Ack(a))) == Ok::<
            AtomicRegisterMessage,
            DecodeFailure,
        >(AtomicRegisterMessage::Ack(a)),
{
    let b = spec_serialise(AtomicRegisterMessage::Ack(a));
    let header = header_bytes(a.run_id, a.key, a.rid);
    lemma_part_lens(a.run_id, a.key, a.rid, 0, 0, 0);
    lemma_concat_parts(seq![4u8], header, payload_bytes(0, 0, 0), u32_be(0));
    lemma_header_fields(b, a.run_id, a.key, a.rid);
}

proof fn lemma_write_round_trip(w: Write)
    ensures
        spec_deserialise(spec_serialise(AtomicRegisterMessage::Write(w))) == Ok::<
            AtomicRegisterMessage,
            DecodeFailure,
        >(AtomicRegisterMessage::Write(w)),
{
    let b = spec_serialise(AtomicRegisterMessage::Write(w));
    let header = header_bytes(w.run_id, w.key, w.rid);
    let payload = payload_bytes(w.ts, w.wr, w.value);
    lemma_part_lens(w.run_id, w.key, w.rid, w.ts, w.wr, w.value);
    lemma_concat_parts(seq![2u8], header, payload, u32_be(0));
    lemma_header_fields(b, w.run_id, w.key, w.rid);
    lemma_payload_fields(b, w.ts, w.wr, w.value);
}

proof fn lemma_value_round_trip(v: Value)
    ensures
        spec_deserialise(spec_serialise(AtomicRegisterMessage::Value(v))) == Ok::<
            AtomicRegisterMessage,
            DecodeFailure,
        >(AtomicRegisterMessage::Value(v)),
{
    let b = spec_serialise(AtomicRegisterMessage::Value(v));
    let header = header_bytes(v.run_id, v.key, v.rid);
    let payload = payload_bytes(v.ts, v.wr, v.value);
    lemma_part_lens(v.run_id, v.key, v.rid, v.ts, v.wr, v.value);
    lemma_concat_parts(seq![3u8], header, payload, u32_be(v.sender_rank));
    lemma_header_fields(b, v.run_id, v.key, v.rid);
    lemma_payload_fields(b, v.ts, v.wr, v.value);
    lemma_u32_be_round_trip(v.sender_rank);
}

/// Decoding the encoding of a message gives the message back.
pub proof fn lemma_deserialise_serialise(m: AtomicRegisterMessage)
    ensures
        spec_deserialise(spec_serialise(m)) == Ok::<AtomicRegisterMessage, DecodeFailure>(m),
{
    match m {
        AtomicRegisterMessage::Read(r) => lemma_read_round_trip(r),
        AtomicRegisterMessage::Ack(a) => lemma_ack_round_trip(a),
        AtomicRegisterMessage::Write(w) => lemma_write_round_trip(w),
        AtomicRegisterMessage::Value(v) => lemma_value_round_trip(v),
    }
}

#[verifier::rlimit(50)]
proof fn lemma_header_bytes_of_fields(b: Seq<u8>)
    requires
        b.len() >= 17,
    ensures
        header_bytes(field32(b, 1), field64(b, 5), field32(b, 13)) == b.subrange(1, 17),
{
    lemma_u32_from_be_round_trip(b.subrange(1, 5));
    lemma_u64_from_be_round_trip(b.subrange(5, 13));
    lemma_u32_from_be_round_trip(b.subrange(13, 17));
    assert(b.subrange(1, 5) + b.subrange(5, 13) + b.subrange(13, 17) =~= b.subrange(1, 17));
}

#[verifier::rlimit(50)]
proof fn lemma_payload_bytes_of_fields(b: Seq<u8>)
    requires
        b.len() >= 29,
    ensures
        payload_bytes(field32(b, 17), field32(b, 21), field32(b, 25)) == b.subrange(17, 29),
{
    lemma_u32_from_be_round_trip(b.subrange(17, 21));
    lemma_u32_from_be_round_trip(b.subrange(21, 25));
    lemma_u32_from_be_round_trip(b.subrange(25, 29));
    assert(b.subrange(17, 21) + b.subrange(21, 25) + b.subrange(25, 29) =~= b.subrange(17, 29));
}

/// Encoding what was decoded gives the bytes back: every buffer either
/// fails to decode or is the encoding of what it decodes to.
#[verifier::rlimit(50)]
pub proof fn lemma_serialise_deserialise(b: Seq<u8>)
    requires
        spec_deserialise(b) is Ok,
    ensures
        spec_serialise(spec_deserialise(b)->Ok_0) == b,
{
    let m = spec_deserialise(b)->Ok_0;
    lemma_header_bytes_of_fields(b);
    match m {
        AtomicRegisterMessage::Read(r) => {
            assert(seq![1u8] + b.subrange(1, 17) =~= b);
        },
        AtomicRegisterMessage::Ack(a) => {
            assert(seq![4u8] + b.subrange(1, 17) =~= b);
        },
        AtomicRegisterMessage::Write(w) => {
            lemma_payload_bytes_of_fields(b);
            assert(seq![2u8] + b.subrange(1, 17) + b.subrange(17, 29) =~= b);
        },
        AtomicRegisterMessage::Value(v) => {
            lemma_payload_bytes_of_fields(b);
            lemma_u32_from_be_round_trip(b.subrange(29, 33));
            assert(seq![3u8] + b.subrange(1, 17) + b.subrange(17, 29) + b.subrange(29, 33) =~= b);
        },
    }
}

/// Decoding succeeds on the encodings of the messages and on nothing else.
pub proof fn lemma_decodable_iff_encoding(b: Seq<u8>)
    ensures
        spec_deserialise(b) is Ok <==> exists|m: AtomicRegisterMessage| #[trigger]
            spec_serialise(m) == b,
{
    if spec_deserialise(b) is Ok {
        lemma_serialise_deserialise(b);
        assert(spec_serialise(spec_deserialise(b)->Ok_0) == b);
    }
    if exists|m: AtomicRegisterMessage| #[trigger] spec_serialise(m) == b {
        let m = choose|m: AtomicRegisterMessage| #[trigger] spec_serialise(m) == b;
        lemma_deserialise_serialise(m);
    }
}

} // verus!
