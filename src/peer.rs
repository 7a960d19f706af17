//! Peers as announced by a tracker in compact form.
use vstd::prelude::*;

use crate::error::Error;
use crate::torrent::Torrent;

verus! {

/// Bytes of one compact peer record: four address bytes and two port bytes.
pub const PEER_SIZE: usize = 6;

/// A session-local peer number.
pub type PeerId = u32;

/// An IPv4 peer.
#[derive(Clone, Copy, Debug, PartialEq, Eq)]
pub struct Peer {
    /// Session-local number, its position in the tracker's list.
    pub id: PeerId,
    /// The IPv4 address, most significant byte first.
    pub ip: [u8; 4],
    /// The TCP port.
    pub port: u16,
}

/// The peer described by the compact record at position `i` of `records`.
pub open spec fn peer_record(records: Seq<u8>, i: int) -> (u32, Seq<u8>, u16) {
    let at = i * PEER_SIZE;
    (
        i as u32,
        records.subrange(at, at + 4),
        (records[at + 4] as int * 256 + records[at + 5] as int) as u16,
    )
}

impl Peer {
    /// A placeholder peer: number 0 at 1.1.1.1, port 0.
    pub fn new() -> (r: Peer)
        ensures
            r.id == 0,
            r.ip@ == seq![1u8, 1u8, 1u8, 1u8],
            r.port == 0,
    {
        let r = Peer { id: 0, ip: [1u8, 1u8, 1u8, 1u8], port: 0 };
        assert(r.ip@ =~= seq![1u8, 1u8, 1u8, 1u8]);
        r
    }
}

impl Torrent {
/// Reads the compact peer list of a tracker: one peer per six bytes, numbered
/// in order. Fails when the length is not a multiple of six.
pub fn build_peers(&self, tracker_peers: Vec<u8>) -> (r: Result<Vec<Peer>, Error>)
    requires
        tracker_peers@.len() / 6 <= u32::MAX + 1,
    ensures
        match r {
            Ok(peers) => {
                &&& tracker_peers@.len() % 6 == 0
                &&& peers@.len() == tracker_peers@.len() / 6
                &&& forall|i: int|
                    0 <= i < peers@.len() ==> (#[trigger] peers@[i].id, peers@[i].ip@, peers@[i].port)
                        == peer_record(tracker_peers@, i)
            },
            Err(e) => tracker_peers@.len() % 6 != 0 && e == Error::Protocol,
        },
{
    if tracker_peers.len() % PEER_SIZE != 0 {
        return Err(Error::Protocol);
    }
    let nb_peers: usize = tracker_peers.len() / PEER_SIZE;
    let mut peers: Vec<Peer> = Vec::new();
    let mut i: usize = 0;
    while i < nb_peers
        invariant
            nb_peers == tracker_peers@.len() / 6,
            tracker_peers@.len() % 6 == 0,
            tracker_peers@.len() <= usize::MAX,
            nb_peers <= u32::MAX + 1,
            i <= nb_peers,
            peers@.len() == i,
            forall|j: int|
                0 <= j < i ==> (#[trigger] peers@[j].id, peers@[j].ip@, peers@[j].port)
                    == peer_record(tracker_peers@, j),
        decreases nb_peers - i,
    {
        assert(i * 6 + 6 <= tracker_peers@.len()) by (nonlinear_arith)
            requires
                i < nb_peers,
                nb_peers == tracker_peers@.len() / 6,
        ;
        let offset: usize = i * PEER_SIZE;
        let ip: [u8; 4] = [
            tracker_peers[offset],
            tracker_peers[offset + 1],
            tracker_peers[offset + 2],
            tracker_peers[offset + 3],
        ];
        let port: u16 = (tracker_peers[offset + 4] as u16) * 256 + (tracker_peers[offset + 5] as u16);
        let peer = Peer { id: i as u32, ip, port };
        assert(peer.ip@ =~= tracker_peers@.subrange(offset as int, offset + 4));
        peers.push(peer);
        i = i + 1;
    }
    Ok(peers)
}
}

} // verus!
