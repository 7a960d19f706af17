//! The fixed-layout handshake that opens a peer connection.
use vstd::prelude::*;

use crate::error::Error;
use crate::message::slice_to_vec;

verus! {

/// The bytes of the protocol name "BitTorrent protocol".
pub open spec fn protocol_id() -> Seq<u8> {
    seq![
        66u8, 105u8, 116u8, 84u8, 111u8, 114u8, 114u8, 101u8, 110u8, 116u8, 32u8,
        112u8, 114u8, 111u8, 116u8, 111u8, 99u8, 111u8, 108u8,
    ]
}

/// The bytes of the protocol name "BitTorrent protocol".
pub fn protocol_id_bytes() -> (r: Vec<u8>)
    ensures
        r@ == protocol_id(),
{
    let r: Vec<u8> = vec![
        66u8, 105u8, 116u8, 84u8, 111u8, 114u8, 114u8, 101u8, 110u8, 116u8, 32u8,
        112u8, 114u8, 111u8, 116u8, 111u8, 99u8, 111u8, 108u8,
    ];
    assert(r@ =~= protocol_id());
    r
}

/// What a handshake holds.
pub struct HandshakeView {
    pub pstrlen: nat,
    pub pstr: Seq<u8>,
    pub reserved: Seq<u8>,
    pub info_hash: Seq<u8>,
    pub peer_id: Seq<u8>,
}

/// The wire bytes of a handshake: the protocol name's length, the name, the
/// reserved bytes, the info hash and the peer id.
pub open spec fn handshake_bytes(h: HandshakeView) -> Seq<u8> {
    seq![h.pstrlen as u8] + h.pstr + h.reserved + h.info_hash + h.peer_id
}

/// The handshake read from `buf`, the bytes that follow the length byte, for a
/// protocol name of `pstrlen` bytes.
pub open spec fn decode_handshake(buf: Seq<u8>, pstrlen: nat) -> HandshakeView {
    let n = pstrlen as int;
    HandshakeView {
        pstrlen,
        pstr: buf.subrange(0, n),
        reserved: buf.subrange(n, n + 8),
        info_hash: buf.subrange(n + 8, n + 28),
        peer_id: buf.subrange(n + 28, n + 48),
    }
}

/// The handshake message.
pub struct Handshake {
    pstrlen: usize,
    // String identifier of the protocol
    pstr: Vec<u8>,
    // 8 reserved bytes, all set to 0
    reserved: Vec<u8>,
    // 20-byte SHA-1 hash of the info key in the metainfo file
    info_hash: Vec<u8>,
    // 20-byte string used as a unique ID for the client
    peer_id: Vec<u8>,
}

impl View for Handshake {
    type V = HandshakeView;

    closed spec fn view(&self) -> HandshakeView {
        HandshakeView {
            pstrlen: self.pstrlen as nat,
            pstr: self.pstr@,
            reserved: self.reserved@,
            info_hash: self.info_hash@,
            peer_id: self.peer_id@,
        }
    }
}

impl Handshake {
    /// The length of the protocol name fits its one-byte prefix and matches it.
    pub closed spec fn wf(&self) -> bool {
        &&& self.pstrlen == self.pstr@.len()
        &&& self.pstrlen <= 255
    }

    /// A handshake for this protocol with zeroed reserved bytes.
    pub fn new(peer_id: Vec<u8>, info_hash: Vec<u8>) -> (r: Handshake)
        ensures
            r.wf(),
            r@ == (HandshakeView {
                pstrlen: 19,
                pstr: protocol_id(),
                reserved: Seq::new(8, |i: int| 0u8),
                info_hash: info_hash@,
                peer_id: peer_id@,
            }),
    {
        let pstr = protocol_id_bytes();
        let pstrlen = pstr.len();
        let reserved: Vec<u8> = vec![0u8; 8];
        let r = Handshake { pstrlen, pstr, reserved, info_hash, peer_id };
        assert(r@.reserved =~= Seq::new(8, |i: int| 0u8));
        r
    }

    /// The info hash that the handshake carries.
    pub fn get_info_hash(self) -> (r: Vec<u8>)
        ensures
            r@ == self@.info_hash,
    {
        self.info_hash
    }

    /// The wire bytes of the handshake.
    pub fn serialize(&self) -> (r: Result<Vec<u8>, Error>)
        requires
            self.wf(),
        ensures
            r matches Ok(v) && v@ == handshake_bytes(self@),
    {
        let mut serialized: Vec<u8> = Vec::new();
        serialized.push(self.pstrlen as u8);
        let mut pstr = self.pstr.clone();
        serialized.append(&mut pstr);
        let mut reserved = self.reserved.clone();
        serialized.append(&mut reserved);
        let mut info_hash = self.info_hash.clone();
        serialized.append(&mut info_hash);
        let mut peer_id = self.peer_id.clone();
        serialized.append(&mut peer_id);
        assert(serialized@ =~= handshake_bytes(self@));
        Ok(serialized)
    }
}

/// The length of the protocol name announced by the first handshake byte; a
/// zero length is refused.
pub fn check_pstrlen(b: u8) -> (r: Result<usize, Error>)
    ensures
        match r {
            Ok(n) => b != 0 && n == b as usize,
            Err(e) => b == 0 && e == Error::Handshake,
        },
{
    if b == 0 {
        Err(Error::Handshake)
    } else {
        Ok(b as usize)
    }
}

/// Splits the bytes that follow the length byte into protocol name, reserved
/// bytes, info hash and peer id. Fails unless `pstrlen` is between 1 and 255 and
/// the buffer holds at least `pstrlen + 48` bytes.
pub fn deserialize_handshake(buf: &Vec<u8>, pstrlen: usize) -> (r: Result<Handshake, Error>)
    ensures
        match r {
            Ok(h) => {
                &&& 1 <= pstrlen <= 255
                &&& pstrlen + 48 <= buf@.len()
                &&& h.wf()
                &&& h@ == decode_handshake(buf@, pstrlen as nat)
            },
            Err(e) => !(1 <= pstrlen <= 255 && pstrlen + 48 <= buf@.len()) && e
                == Error::Handshake,
        },
{
    if pstrlen == 0 || pstrlen > 255 || buf.len() < pstrlen + 48 {
        return Err(Error::Handshake);
    }
    let b = buf.as_slice();
    let pstr = slice_to_vec(b, 0, pstrlen);
    let reserved = slice_to_vec(b, pstrlen, pstrlen + 8);
    let info_hash = slice_to_vec(b, pstrlen + 8, pstrlen + 28);
    let peer_id = slice_to_vec(b, pstrlen + 28, pstrlen + 48);
    Ok(Handshake { pstrlen, pstr, reserved, info_hash, peer_id })
}

/// Reading back an encoded handshake of this protocol, with 8 reserved bytes,
/// a 20-byte info hash and a 20-byte peer id, gives the same handshake.
pub proof fn lemma_handshake_round_trip(h: HandshakeView)
    requires
        h.pstr == protocol_id(),
        h.pstrlen == 19,
        h.reserved.len() == 8,
        h.info_hash.len() == 20,
        h.peer_id.len() == 20,
    ensures
        handshake_bytes(h).len() == 68,
        handshake_bytes(h)[0] == 19,
        decode_handshake(handshake_bytes(h).subrange(1, 68), 19) == h,
{
    let b = handshake_bytes(h);
    let d = decode_handshake(b.subrange(1, 68), 19);
    assert(d.pstr =~= h.pstr);
    assert(d.reserved =~= h.reserved);
    assert(d.info_hash =~= h.info_hash);
    assert(d.peer_id =~= h.peer_id);
}

} // verus!
