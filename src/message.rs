//! Length-prefixed peer wire messages.
use vstd::prelude::*;

use crate::error::Error;

verus! {

/// The identifier of a message kind.
pub type MessageId = u8;

/// The payload of a message.
pub type MessagePayload = Vec<u8>;

pub const MESSAGE_CHOKE: MessageId = 0;

pub const MESSAGE_UNCHOKE: MessageId = 1;

pub const MESSAGE_INTERESTED: MessageId = 2;

pub const MESSAGE_NOT_INTERESTED: MessageId = 3;

pub const MESSAGE_HAVE: MessageId = 4;

pub const MESSAGE_BITFIELD: MessageId = 5;

pub const MESSAGE_REQUEST: MessageId = 6;

pub const MESSAGE_PIECE: MessageId = 7;

pub const MESSAGE_CANCEL: MessageId = 8;

pub const MESSAGE_PORT: MessageId = 9;

/// The four big-endian bytes of `v`.
pub open spec fn u32_be(v: u32) -> Seq<u8> {
    seq![(v >> 24u32) as u8, (v >> 16u32) as u8, (v >> 8u32) as u8, v as u8]
}

/// The integer whose big-endian bytes are `b0 b1 b2 b3`.
pub open spec fn be_u32(b0: u8, b1: u8, b2: u8, b3: u8) -> u32 {
    ((b0 as u32) << 24u32) | ((b1 as u32) << 16u32) | ((b2 as u32) << 8u32) | (b3 as u32)
}

/// The big-endian integer held by `s[at .. at + 4]`.
pub open spec fn be_u32_at(s: Seq<u8>, at: int) -> u32 {
    be_u32(s[at], s[at + 1], s[at + 2], s[at + 3])
}

/// Reading back the bytes of an integer gives the integer.
pub proof fn lemma_be_u32_round_trip(v: u32)
    ensures
        be_u32_at(u32_be(v), 0) == v,
{
    let s = u32_be(v);
    assert(be_u32((v >> 24u32) as u8, (v >> 16u32) as u8, (v >> 8u32) as u8, v as u8) == v)
        by (bit_vector);
}

/// Appends the four big-endian bytes of `v` to `out`.
pub fn write_u32_be(out: &mut Vec<u8>, v: u32)
    ensures
        final(out)@ == old(out)@ + u32_be(v),
{
    out.push((v >> 24u32) as u8);
    out.push((v >> 16u32) as u8);
    out.push((v >> 8u32) as u8);
    out.push(v as u8);
    assert(final(out)@ =~= old(out)@ + u32_be(v));
}

/// The big-endian integer held by `buf[at .. at + 4]`.
pub fn read_u32_be(buf: &[u8], at: usize) -> (r: u32)
    requires
        at + 4 <= buf@.len(),
    ensures
        r == be_u32_at(buf@, at as int),
{
    let b0 = buf[at];
    let b1 = buf[at + 1];
    let b2 = buf[at + 2];
    let b3 = buf[at + 3];
    ((b0 as u32) << 24u32) | ((b1 as u32) << 16u32) | ((b2 as u32) << 8u32) | (b3 as u32)
}

/// The frame of a message: its length (one id byte plus the payload) as four
/// big-endian bytes, the id, then the payload.
pub open spec fn frame(id: u8, payload: Seq<u8>) -> Seq<u8> {
    u32_be((payload.len() + 1) as u32) + seq![id] + payload
}

/// A peer wire message that is not a keep-alive.
#[derive(Debug)]
pub struct Message {
    /// The message kind.
    pub id: MessageId,
    /// The bytes after the id.
    pub payload: MessagePayload,
}

impl Message {
    /// A message with an empty payload.
    pub fn new(id: MessageId) -> (r: Message)
        ensures
            r.id == id,
            r.payload@ == Seq::<u8>::empty(),
    {
        Message { id, payload: Vec::new() }
    }

    /// A message with the given payload.
    pub fn new_with_payload(id: MessageId, payload: MessagePayload) -> (r: Message)
        ensures
            r.id == id,
            r.payload@ == payload@,
    {
        Message { id, payload }
    }

    /// The message kind.
    pub fn get_id(&self) -> (r: MessageId)
        ensures
            r == self.id,
    {
        self.id
    }

    /// A copy of the payload.
    pub fn get_payload(&self) -> (r: MessagePayload)
        ensures
            r@ == self.payload@,
    {
        self.payload.clone()
    }

    /// The framed bytes of the message; fails when its length does not fit the
    /// four-byte prefix.
    pub fn serialize(&self) -> (r: Result<Vec<u8>, Error>)
        ensures
            match r {
                Ok(v) => self.payload@.len() < u32::MAX && v@ == frame(self.id, self.payload@),
                Err(e) => self.payload@.len() >= u32::MAX && e == Error::Protocol,
            },
    {
        if self.payload.len() >= 0xffff_ffffusize {
            return Err(Error::Protocol);
        }
        let message_len: u32 = (self.payload.len() + 1) as u32;
        let mut serialized: Vec<u8> = Vec::new();
        write_u32_be(&mut serialized, message_len);
        serialized.push(self.id);
        let mut i: usize = 0;
        while i < self.payload.len()
            invariant
                i <= self.payload@.len(),
                serialized@ == u32_be(message_len) + seq![self.id] + self.payload@.subrange(
                    0,
                    i as int,
                ),
            decreases self.payload@.len() - i,
        {
            serialized.push(self.payload[i]);
            i = i + 1;
            assert(serialized@ =~= u32_be(message_len) + seq![self.id]
                + self.payload@.subrange(0, i as int));
        }
        assert(self.payload@.subrange(0, i as int) =~= self.payload@);
        Ok(serialized)
    }
}

/// Decodes the body of a frame (the bytes after the length prefix) of
/// `message_len` bytes: the id is its first byte, the payload the rest.
/// Fails when the body is empty or the buffer is shorter than `message_len`.
pub fn deserialize_message(message_buf: &[u8], message_len: usize) -> (r: Result<Message, Error>)
    ensures
        match r {
            Ok(m) => {
                &&& 1 <= message_len <= message_buf@.len()
                &&& m.id == message_buf@[0]
                &&& m.payload@ == message_buf@.subrange(1, message_len as int)
            },
            Err(e) => !(1 <= message_len <= message_buf@.len()) && e == Error::Protocol,
        },
{
    if message_len == 0 || message_len > message_buf.len() {
        return Err(Error::Protocol);
    }
    let id: MessageId = message_buf[0];
    let payload: MessagePayload = slice_to_vec(message_buf, 1, message_len);
    Ok(Message::new_with_payload(id, payload))
}

/// A copy of `buf[start .. end]`.
pub fn slice_to_vec(buf: &[u8], start: usize, end: usize) -> (r: Vec<u8>)
    requires
        start <= end,
        end <= buf@.len(),
    ensures
        r@ == buf@.subrange(start as int, end as int),
{
    let mut out: Vec<u8> = Vec::new();
    let mut i: usize = start;
    while i < end
        invariant
            start <= i <= end,
            end <= buf@.len(),
            out@ == buf@.subrange(start as int, i as int),
        decreases end - i,
    {
        out.push(buf[i]);
        i = i + 1;
        assert(out@ =~= buf@.subrange(start as int, i as int));
    }
    out
}

/// The payload of a HAVE message: the piece index.
pub open spec fn have_payload(index: u32) -> Seq<u8> {
    u32_be(index)
}

/// The payload of a REQUEST message: piece index, byte offset and length.
pub open spec fn request_payload(index: u32, begin: u32, length: u32) -> Seq<u8> {
    u32_be(index) + u32_be(begin) + u32_be(length)
}

/// The payload of a PIECE message: piece index, byte offset, then the block.
pub open spec fn piece_payload(index: u32, begin: u32, block: Seq<u8>) -> Seq<u8> {
    u32_be(index) + u32_be(begin) + block
}

/// A HAVE message announcing piece `index`.
pub fn have_message(index: u32) -> (r: Message)
    ensures
        r.id == MESSAGE_HAVE,
        r.payload@ == have_payload(index),
{
    let mut payload: Vec<u8> = Vec::new();
    write_u32_be(&mut payload, index);
    assert(payload@ =~= have_payload(index));
    Message::new_with_payload(MESSAGE_HAVE, payload)
}

/// A REQUEST message for `length` bytes at offset `begin` of piece `index`.
pub fn request_message(index: u32, begin: u32, length: u32) -> (r: Message)
    ensures
        r.id == MESSAGE_REQUEST,
        r.payload@ == request_payload(index, begin, length),
{
    let mut payload: Vec<u8> = Vec::new();
    write_u32_be(&mut payload, index);
    write_u32_be(&mut payload, begin);
    write_u32_be(&mut payload, length);
    assert(payload@ =~= request_payload(index, begin, length));
    Message::new_with_payload(MESSAGE_REQUEST, payload)
}

/// A PIECE message carrying `block` at offset `begin` of piece `index`.
pub fn piece_message(index: u32, begin: u32, block: &[u8]) -> (r: Message)
    ensures
        r.id == MESSAGE_PIECE,
        r.payload@ == piece_payload(index, begin, block@),
{
    let mut payload: Vec<u8> = Vec::new();
    write_u32_be(&mut payload, index);
    write_u32_be(&mut payload, begin);
    let mut i: usize = 0;
    while i < block.len()
        invariant
            i <= block@.len(),
            payload@ == u32_be(index) + u32_be(begin) + block@.subrange(0, i as int),
        decreases block@.len() - i,
    {
        payload.push(block[i]);
        i = i + 1;
        assert(payload@ =~= u32_be(index) + u32_be(begin) + block@.subrange(0, i as int));
    }
    assert(block@.subrange(0, i as int) =~= block@);
    Message::new_with_payload(MESSAGE_PIECE, payload)
}

/// The piece index of a HAVE message; fails on another kind or a payload that
/// is not exactly four bytes.
pub fn parse_have(message: &Message) -> (r: Result<u32, Error>)
    ensures
        match r {
            Ok(index) => {
                &&& message.id == MESSAGE_HAVE
                &&& message.payload@.len() == 4
                &&& index == be_u32_at(message.payload@, 0)
            },
            Err(e) => (message.id != MESSAGE_HAVE || message.payload@.len() != 4) && e
                == Error::Protocol,
        },
{
    if message.id != MESSAGE_HAVE || message.payload.len() != 4 {
        return Err(Error::Protocol);
    }
    Ok(read_u32_be(message.payload.as_slice(), 0))
}

/// The index, offset and length of a REQUEST message; fails on another kind or
/// a payload that is not exactly twelve bytes.
pub fn parse_request(message: &Message) -> (r: Result<(u32, u32, u32), Error>)
    ensures
        match r {
            Ok((index, begin, length)) => {
                &&& message.id == MESSAGE_REQUEST
                &&& message.payload@.len() == 12
                &&& index == be_u32_at(message.payload@, 0)
                &&& begin == be_u32_at(message.payload@, 4)
                &&& length == be_u32_at(message.payload@, 8)
            },
            Err(e) => (message.id != MESSAGE_REQUEST || message.payload@.len() != 12) && e
                == Error::Protocol,
        },
{
    if message.id != MESSAGE_REQUEST || message.payload.len() != 12 {
        return Err(Error::Protocol);
    }
    let p = message.payload.as_slice();
    Ok((read_u32_be(p, 0), read_u32_be(p, 4), read_u32_be(p, 8)))
}

/// The index, offset and block of a PIECE message; fails on another kind or a
/// payload shorter than eight bytes.
pub fn parse_piece(message: &Message) -> (r: Result<(u32, u32, Vec<u8>), Error>)
    ensures
        match r {
            Ok((index, begin, block)) => {
                &&& message.id == MESSAGE_PIECE
                &&& message.payload@.len() >= 8
                &&& index == be_u32_at(message.payload@, 0)
                &&& begin == be_u32_at(message.payload@, 4)
                &&& block@ == message.payload@.subrange(8, message.payload@.len() as int)
            },
            Err(e) => (message.id != MESSAGE_PIECE || message.payload@.len() < 8) && e
                == Error::Protocol,
        },
{
    if message.id != MESSAGE_PIECE || message.payload.len() < 8 {
        return Err(Error::Protocol);
    }
    let p = message.payload.as_slice();
    let block = slice_to_vec(p, 8, p.len());
    Ok((read_u32_be(p, 0), read_u32_be(p, 4), block))
}

/// Parsing the payload of an encoded HAVE, REQUEST or PIECE message gives back
/// its fields.
pub proof fn lemma_typed_round_trip(index: u32, begin: u32, length: u32, block: Seq<u8>)
    ensures
        have_payload(index).len() == 4,
        be_u32_at(have_payload(index), 0) == index,
        request_payload(index, begin, length).len() == 12,
        be_u32_at(request_payload(index, begin, length), 0) == index,
        be_u32_at(request_payload(index, begin, length), 4) == begin,
        be_u32_at(request_payload(index, begin, length), 8) == length,
        piece_payload(index, begin, block).len() == 8 + block.len(),
        be_u32_at(piece_payload(index, begin, block), 0) == index,
        be_u32_at(piece_payload(index, begin, block), 4) == begin,
        piece_payload(index, begin, block).subrange(8, 8 + block.len() as int) == block,
{
    lemma_be_u32_round_trip(index);
    lemma_be_u32_round_trip(begin);
    lemma_be_u32_round_trip(length);
    let r = request_payload(index, begin, length);
    assert(r.subrange(4, 8) =~= u32_be(begin));
    assert(r.subrange(8, 12) =~= u32_be(length));
    assert(be_u32_at(r, 4) == be_u32_at(u32_be(begin), 0));
    assert(be_u32_at(r, 8) == be_u32_at(u32_be(length), 0));
    let p = piece_payload(index, begin, block);
    assert(be_u32_at(p, 4) == be_u32_at(u32_be(begin), 0));
    assert(p.subrange(8, 8 + block.len() as int) =~= block);
}

/// Decoding the body of an encoded frame gives back the message.
pub proof fn lemma_message_round_trip(id: u8, payload: Seq<u8>)
    requires
        payload.len() < u32::MAX,
    ensures
        frame(id, payload).len() == 5 + payload.len(),
        be_u32_at(frame(id, payload), 0) == payload.len() + 1,
        frame(id, payload).subrange(4, frame(id, payload).len() as int)[0] == id,
        frame(id, payload).subrange(4, frame(id, payload).len() as int).subrange(
            1,
            (payload.len() + 1) as int,
        ) == payload,
{
    let f = frame(id, payload);
    lemma_be_u32_round_trip((payload.len() + 1) as u32);
    assert(f.subrange(4, f.len() as int).subrange(1, (payload.len() + 1) as int) =~= payload);
}

} // verus!
