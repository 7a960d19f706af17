//! The state of a session with one peer and the steps of a piece download.
use vstd::prelude::*;

use crate::bitfield::{bit_at, has_bit, set_piece, with_bit};
use crate::error::Error;
use crate::handshake::{
    decode_handshake, deserialize_handshake, handshake_bytes, protocol_id, Handshake,
    HandshakeView,
};
use crate::integrity::bytes_equal;
use crate::message::{be_u32_at, parse_have, parse_piece, Message, MESSAGE_BITFIELD, MESSAGE_CHOKE, MESSAGE_HAVE, MESSAGE_PIECE, MESSAGE_UNCHOKE};
use crate::peer::Peer;
use crate::piece::{block_count, block_len, lemma_block_count_bounds, PieceWork, BLOCK_SIZE_MAX, NB_REQUESTS_MAX};

verus! {

/// A REQUEST to send: `length` bytes at offset `begin` of piece `index`.
#[derive(Clone, Copy, Debug, PartialEq, Eq, Structural)]
pub struct BlockRequest {
    pub index: u32,
    pub begin: u32,
    pub length: u32,
}

/// What a session holds.
pub struct ClientView {
    pub peer: Peer,
    pub peer_id: Seq<u8>,
    pub info_hash: Seq<u8>,
    pub bitfield: Seq<u8>,
    pub choked: bool,
}

/// The state of a session with one peer: who we are, which torrent, which
/// pieces the peer has and whether it has choked us.
pub struct Client {
    // The remote peer
    peer: Peer,
    // Our 20-byte peer id
    peer_id: Vec<u8>,
    // Torrent info hash
    info_hash: Vec<u8>,
    // Pieces the peer has
    bitfield: Vec<u8>,
    // Peer has choked this client
    choked: bool,
}

impl View for Client {
    type V = ClientView;

    closed spec fn view(&self) -> ClientView {
        ClientView {
            peer: self.peer,
            peer_id: self.peer_id@,
            info_hash: self.info_hash@,
            bitfield: self.bitfield@,
            choked: self.choked,
        }
    }
}

/// The handshake that opens a session for `info_hash` as `peer_id`.
pub open spec fn opening_handshake(peer_id: Seq<u8>, info_hash: Seq<u8>) -> HandshakeView {
    HandshakeView {
        pstrlen: 19,
        pstr: protocol_id(),
        reserved: Seq::new(8, |i: int| 0u8),
        info_hash,
        peer_id,
    }
}

/// `data` with `block` written at offset `begin`.
pub open spec fn write_block(data: Seq<u8>, begin: int, block: Seq<u8>) -> Seq<u8> {
    Seq::new(
        data.len(),
        |k: int|
            if begin <= k < begin + block.len() {
                block[k - begin]
            } else {
                data[k]
            },
    )
}

/// The block of a PIECE message: its payload after index and offset.
pub open spec fn piece_block(m: Message) -> Seq<u8> {
    m.payload@.subrange(8, m.payload@.len() as int)
}

/// Whether the piece being downloaded takes the PIECE message `m`: it names
/// this piece, the block lies inside it, a request is in flight and the block
/// does not bring more bytes than were asked for.
pub open spec fn takes_piece(pw: PieceWork, m: Message) -> bool {
    &&& m.id == MESSAGE_PIECE
    &&& m.payload@.len() >= 8
    &&& be_u32_at(m.payload@, 0) == pw.index
    &&& be_u32_at(m.payload@, 4) + piece_block(m).len() <= pw.length
    &&& pw.requests > 0
    &&& pw.downloaded + piece_block(m).len() <= pw.requested
}

/// The piece after it took the PIECE message `m`.
pub open spec fn took_piece(old_pw: PieceWork, new_pw: PieceWork, m: Message) -> bool {
    &&& new_pw.same_piece(&old_pw)
    &&& new_pw.data@ == write_block(old_pw.data@, be_u32_at(m.payload@, 4) as int, piece_block(m))
    &&& new_pw.downloaded == old_pw.downloaded + piece_block(m).len()
    &&& new_pw.requests == old_pw.requests - 1
    &&& new_pw.requested == old_pw.requested
}

/// The request for the block at `begin` of the piece.
pub open spec fn block_request(pw: PieceWork, begin: int) -> BlockRequest {
    BlockRequest {
        index: pw.index,
        begin: begin as u32,
        length: block_len(pw.length as int, begin) as u32,
    }
}

impl Client {
    /// A session with `peer` that has not seen the peer's bitfield yet and is
    /// choked.
    pub fn new(peer: Peer, peer_id: Vec<u8>, info_hash: Vec<u8>) -> (r: Client)
        ensures
            r@ == (ClientView {
                peer,
                peer_id: peer_id@,
                info_hash: info_hash@,
                bitfield: Seq::empty(),
                choked: true,
            }),
    {
        let r = Client { peer, peer_id, info_hash, bitfield: Vec::new(), choked: true };
        assert(r@.bitfield =~= Seq::<u8>::empty());
        r
    }

    /// The remote peer.
    pub fn get_peer(&self) -> (r: Peer)
        ensures
            r == self@.peer,
    {
        self.peer
    }

    /// Whether the peer has choked us.
    pub fn is_choked(&self) -> (r: bool)
        ensures
            r == self@.choked,
    {
        self.choked
    }

    /// Whether the peer has piece `index`.
    pub fn has_piece(&self, index: u32) -> (r: bool)
        ensures
            r == has_bit(self@.bitfield, index as int),
    {
        bit_at(self.bitfield.as_slice(), index as usize)
    }

    /// Records that the peer has piece `index`; an index beyond its bitfield
    /// changes nothing.
    pub fn set_piece(&mut self, index: u32)
        ensures
            final(self)@ == (ClientView { bitfield: with_bit(old(self)@.bitfield, index as int), ..old(self)@ }),
    {
        self.bitfield = set_piece(&self.bitfield, index as usize);
    }

    /// The handshake bytes to send to the peer.
    pub fn handshake(&self) -> (r: Vec<u8>)
        ensures
            r@ == handshake_bytes(opening_handshake(self@.peer_id, self@.info_hash)),
    {
        let handshake = Handshake::new(self.peer_id.clone(), self.info_hash.clone());
        assert(handshake@ == opening_handshake(self@.peer_id, self@.info_hash));
        match handshake.serialize() {
            Ok(bytes) => bytes,
            Err(_) => Vec::new(),
        }
    }

    /// Checks the peer's handshake, `buf` being the bytes after its length
    /// byte and `pstrlen` that length: it must be well formed and carry our
    /// info hash.
    pub fn check_handshake(&self, buf: &Vec<u8>, pstrlen: usize) -> (r: Result<(), Error>)
        ensures
            match r {
                Ok(()) => {
                    &&& 1 <= pstrlen <= 255
                    &&& pstrlen + 48 <= buf@.len()
                    &&& decode_handshake(buf@, pstrlen as nat).info_hash == self@.info_hash
                },
                Err(e) => {
                    &&& e == Error::Handshake
                    &&& !(1 <= pstrlen <= 255 && pstrlen + 48 <= buf@.len()
                        && decode_handshake(buf@, pstrlen as nat).info_hash == self@.info_hash)
                },
            },
    {
        let handshake = deserialize_handshake(buf, pstrlen)?;
        let info_hash = handshake.get_info_hash();
        if !bytes_equal(info_hash.as_slice(), self.info_hash.as_slice()) {
            return Err(Error::Handshake);
        }
        Ok(())
    }

    /// The peer choked us.
    pub fn read_choke(&mut self)
        ensures
            final(self)@ == (ClientView { choked: true, ..old(self)@ }),
    {
        self.choked = true;
    }

    /// The peer unchoked us.
    pub fn read_unchoke(&mut self)
        ensures
            final(self)@ == (ClientView { choked: false, ..old(self)@ }),
    {
        self.choked = false;
    }

    /// A HAVE message: the peer now has the piece it names.
    pub fn read_have(&mut self, message: Message) -> (r: Result<(), Error>)
        ensures
            match r {
                Ok(()) => {
                    &&& message.id == MESSAGE_HAVE
                    &&& message.payload@.len() == 4
                    &&& final(self)@ == (ClientView {
                        bitfield: with_bit(old(self)@.bitfield, be_u32_at(message.payload@, 0) as int),
                        ..old(self)@
                    })
                },
                Err(e) => {
                    &&& (message.id != MESSAGE_HAVE || message.payload@.len() != 4)
                    &&& e == Error::Protocol
                    &&& final(self)@ == old(self)@
                },
            },
    {
        let index = parse_have(&message)?;
        self.set_piece(index);
        Ok(())
    }

    /// A BITFIELD message: its payload becomes the peer's bitfield.
    pub fn read_bitfield(&mut self, message: Message) -> (r: Result<(), Error>)
        ensures
            match r {
                Ok(()) => {
                    &&& message.id == MESSAGE_BITFIELD
                    &&& final(self)@ == (ClientView { bitfield: message.payload@, ..old(self)@ })
                },
                Err(e) => {
                    &&& message.id != MESSAGE_BITFIELD
                    &&& e == Error::Protocol
                    &&& final(self)@ == old(self)@
                },
            },
    {
        if message.id != MESSAGE_BITFIELD {
            return Err(Error::Protocol);
        }
        self.bitfield = message.payload;
        Ok(())
    }

    /// A PIECE message: its block is placed by offset into the piece being
    /// downloaded. Fails with `Protocol`, leaving the piece as it was, unless
    /// the piece takes the message.
    pub fn read_piece(&mut self, message: Message, piece_work: &mut PieceWork) -> (r: Result<(), Error>)
        requires
            old(piece_work).wf(),
        ensures
            final(self)@ == old(self)@,
            final(piece_work).wf(),
            match r {
                Ok(()) => takes_piece(*old(piece_work), message) && took_piece(*old(piece_work), *final(piece_work), message),
                Err(e) => !takes_piece(*old(piece_work), message) && e == Error::Protocol && *final(piece_work) == *old(piece_work),
            },
    {
        let (index, begin, block) = parse_piece(&message)?;
        if index != piece_work.index {
            return Err(Error::Protocol);
        }
        let block_len: usize = block.len();
        assert(block@ == piece_block(message));
        if block_len > piece_work.length as usize || begin > piece_work.length - block_len as u32 {
            return Err(Error::Protocol);
        }
        if piece_work.requests == 0 || block_len as u32 > piece_work.requested - piece_work.downloaded {
            return Err(Error::Protocol);
        }
        let ghost old_data = piece_work.data@;
        let ghost before = *piece_work;
        let mut i: usize = 0;
        while i < block_len
            invariant
                piece_work.same_piece(&before),
                piece_work.requests == before.requests,
                piece_work.requested == before.requested,
                piece_work.downloaded == before.downloaded,
                before.requests > 0,
                before.downloaded + block_len <= before.requested,
                before.wf(),
                before.data@ == old_data,
                block_len == block@.len(),
                begin + block_len <= piece_work.length,
                piece_work.data@.len() == old_data.len(),
                old_data.len() == piece_work.length,
                i <= block_len,
                forall|k: int|
                    0 <= k < old_data.len() ==> #[trigger] piece_work.data@[k] == if begin <= k < begin + i {
                        block@[k - begin]
                    } else {
                        old_data[k]
                    },
            decreases block_len - i,
        {
            piece_work.data.set(begin as usize + i, block[i]);
            i = i + 1;
        }
        assert(piece_work.data@ =~= write_block(old_data, begin as int, block@));
        piece_work.downloaded = piece_work.downloaded + block_len as u32;
        piece_work.requests = piece_work.requests - 1;
        Ok(())
    }

    /// Fills the request pipeline: while unchoked, fewer than five requests
    /// are in flight and bytes of the piece remain unasked, the next block is
    /// asked for. Returns the requests to send, in order.
    pub fn request_blocks(&self, piece_work: &mut PieceWork) -> (r: Vec<BlockRequest>)
        requires
            old(piece_work).wf(),
        ensures
            final(piece_work).wf(),
            final(piece_work).same_piece(old(piece_work)),
            final(piece_work).data@ == old(piece_work).data@,
            final(piece_work).downloaded == old(piece_work).downloaded,
            final(piece_work).requests == old(piece_work).requests + r@.len(),
            forall|j: int|
                0 <= j < r@.len() ==> #[trigger] r@[j] == block_request(*old(piece_work), old(piece_work).requested + j * BLOCK_SIZE_MAX),
            forall|j: int|
                0 <= j < r@.len() ==> old(piece_work).requested + #[trigger] (j * BLOCK_SIZE_MAX) < old(piece_work).length,
            self@.choked ==> r@.len() == 0,
            !self@.choked ==> r@.len() == if NB_REQUESTS_MAX - old(piece_work).requests < block_count(old(piece_work).length - old(piece_work).requested) {
                NB_REQUESTS_MAX - old(piece_work).requests
            } else {
                block_count(old(piece_work).length - old(piece_work).requested)
            },
            !self@.choked ==> {
                &&& final(piece_work).requests == NB_REQUESTS_MAX || final(piece_work).requested == final(piece_work).length
                &&& final(piece_work).requested == if old(piece_work).requested + r@.len() * BLOCK_SIZE_MAX < old(piece_work).length {
                    old(piece_work).requested + r@.len() * BLOCK_SIZE_MAX
                } else {
                    old(piece_work).length as int
                }
            },
    {
        let mut out: Vec<BlockRequest> = Vec::new();
        if self.choked {
            return out;
        }
        let ghost old_pw = *piece_work;
        while piece_work.requests < NB_REQUESTS_MAX && piece_work.requested < piece_work.length
            invariant
                piece_work.wf(),
                piece_work.same_piece(&old_pw),
                piece_work.data@ == old_pw.data@,
                piece_work.downloaded == old_pw.downloaded,
                old_pw.wf(),
                piece_work.requests == old_pw.requests + out@.len(),
                piece_work.requested == if old_pw.requested + out@.len() * BLOCK_SIZE_MAX < old_pw.length {
                    old_pw.requested + out@.len() * BLOCK_SIZE_MAX
                } else {
                    old_pw.length as int
                },
                forall|j: int|
                    0 <= j < out@.len() ==> #[trigger] out@[j] == block_request(old_pw, old_pw.requested + j * BLOCK_SIZE_MAX),
                forall|j: int|
                    0 <= j < out@.len() ==> old_pw.requested + #[trigger] (j * BLOCK_SIZE_MAX) < old_pw.length,
            decreases NB_REQUESTS_MAX - piece_work.requests,
        {
            let remaining: u32 = piece_work.length - piece_work.requested;
            let block_size: u32 = if remaining < BLOCK_SIZE_MAX {
                remaining
            } else {
                BLOCK_SIZE_MAX
            };
            out.push(BlockRequest { index: piece_work.index, begin: piece_work.requested, length: block_size });
            piece_work.requests = piece_work.requests + 1;
            piece_work.requested = piece_work.requested + block_size;
        }
        proof {
            let k = out@.len() as int;
            if k > 0 {
                assert(old_pw.requested + (k - 1) * BLOCK_SIZE_MAX < old_pw.length);
            }
            lemma_block_count_bounds(old_pw.length - old_pw.requested, k);
        }
        out
    }

    /// Handles one message read while downloading `piece_work`: CHOKE and
    /// UNCHOKE change the choke state, HAVE marks a piece, PIECE places a block;
    /// other kinds are ignored.
    pub fn handle_message(&mut self, message: Message, piece_work: &mut PieceWork) -> (r: Result<(), Error>)
        requires
            old(piece_work).wf(),
        ensures
            final(piece_work).wf(),
            message.id == MESSAGE_CHOKE ==> r is Ok && final(self)@ == (ClientView { choked: true, ..old(self)@ }) && *final(piece_work) == *old(piece_work),
            message.id == MESSAGE_UNCHOKE ==> r is Ok && final(self)@ == (ClientView { choked: false, ..old(self)@ }) && *final(piece_work) == *old(piece_work),
            message.id == MESSAGE_HAVE ==> *final(piece_work) == *old(piece_work) && match r {
                Ok(()) => message.payload@.len() == 4 && final(self)@ == (ClientView {
                    bitfield: with_bit(old(self)@.bitfield, be_u32_at(message.payload@, 0) as int),
                    ..old(self)@
                }),
                Err(e) => message.payload@.len() != 4 && e == Error::Protocol && final(self)@ == old(self)@,
            },
            message.id == MESSAGE_PIECE ==> final(self)@ == old(self)@ && match r {
                Ok(()) => takes_piece(*old(piece_work), message) && took_piece(*old(piece_work), *final(piece_work), message),
                Err(e) => !takes_piece(*old(piece_work), message) && e == Error::Protocol && *final(piece_work) == *old(piece_work),
            },
            (message.id != MESSAGE_CHOKE && message.id != MESSAGE_UNCHOKE && message.id != MESSAGE_HAVE && message.id != MESSAGE_PIECE) ==> r is Ok && final(self)@ == old(self)@ && *final(piece_work) == *old(piece_work),
    {
        if message.id == MESSAGE_CHOKE {
            self.read_choke();
            Ok(())
        } else if message.id == MESSAGE_UNCHOKE {
            self.read_unchoke();
            Ok(())
        } else if message.id == MESSAGE_HAVE {
            self.read_have(message)
        } else if message.id == MESSAGE_PIECE {
            self.read_piece(message, piece_work)
        } else {
            Ok(())
        }
    }
}

} // verus!
