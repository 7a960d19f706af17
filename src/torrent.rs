//! The torrent being downloaded and the plan of its pieces.
use vstd::prelude::*;

use crate::error::Error;
use crate::integrity::{sha1_digest, sha1_of};
use crate::message::slice_to_vec;
use crate::peer::Peer;
use crate::piece::PieceWork;

verus! {

/// Length of one SHA-1 digest in bytes.
pub const SHA1_HASH_SIZE: usize = 20;

/// `n` pieces of `piece_length` bytes cover a file of `length` bytes, the last
/// one possibly short but not empty.
pub open spec fn plan_fits(n: int, piece_length: int, length: int) -> bool {
    &&& piece_length > 0
    &&& n * piece_length >= length
    &&& length > (n - 1) * piece_length
}

/// The length of piece `index`: `piece_length`, but for the last piece, which
/// holds what is left of the file.
pub open spec fn piece_len(piece_length: int, length: int, index: int) -> int {
    if length - index * piece_length < piece_length {
        length - index * piece_length
    } else {
        piece_length
    }
}

/// The 20-byte hashes cut from the concatenated `pieces` field.
pub open spec fn hashes_of(pieces: Seq<u8>) -> Seq<Seq<u8>> {
    Seq::new(
        (pieces.len() / 20) as nat,
        |i: int| pieces.subrange(i * 20, i * 20 + 20),
    )
}

/// What a torrent holds.
pub struct TorrentView {
    pub announce: Seq<char>,
    pub info_hash: Seq<u8>,
    pub pieces_hashes: Seq<Seq<u8>>,
    pub piece_length: u32,
    pub length: u32,
    pub name: Seq<char>,
    pub peer_id: Seq<u8>,
    pub peers: Seq<Peer>,
}

/// The file to download, as its metainfo describes it, and the swarm's peers.
pub struct Torrent {
    // URL of the tracker
    announce: String,
    // 20-byte SHA-1 hash of the bencoded info dictionary
    info_hash: Vec<u8>,
    // SHA-1 hashes of each piece
    pieces_hashes: Vec<Vec<u8>>,
    // Size of each piece in bytes
    piece_length: u32,
    // Size of the file in bytes
    length: u32,
    // Suggested filename where to save the file
    name: String,
    // 20-byte string used as unique client ID
    peer_id: Vec<u8>,
    // Peers
    peers: Vec<Peer>,
}

impl View for Torrent {
    type V = TorrentView;

    closed spec fn view(&self) -> TorrentView {
        TorrentView {
            announce: self.announce@,
            info_hash: self.info_hash@,
            pieces_hashes: self.pieces_hashes@.map_values(|h: Vec<u8>| h@),
            piece_length: self.piece_length,
            length: self.length,
            name: self.name@,
            peer_id: self.peer_id@,
            peers: self.peers@,
        }
    }
}

/// Cuts the concatenated piece hashes into 20-byte hashes; fails when the
/// length is not a multiple of 20.
pub fn split_pieces_hashes(pieces: &[u8]) -> (r: Result<Vec<Vec<u8>>, Error>)
    ensures
        match r {
            Ok(hashes) => {
                &&& pieces@.len() % 20 == 0
                &&& hashes@.map_values(|h: Vec<u8>| h@) == hashes_of(pieces@)
            },
            Err(e) => pieces@.len() % 20 != 0 && e == Error::Metainfo,
        },
{
    if pieces.len() % SHA1_HASH_SIZE != 0 {
        return Err(Error::Metainfo);
    }
    let nb_hashes: usize = pieces.len() / SHA1_HASH_SIZE;
    let mut hashes: Vec<Vec<u8>> = Vec::new();
    let mut i: usize = 0;
    while i < nb_hashes
        invariant
            nb_hashes == pieces@.len() / 20,
            pieces@.len() <= usize::MAX,
            i <= nb_hashes,
            hashes@.len() == i,
            forall|j: int| 0 <= j < i ==> #[trigger] hashes@[j]@ == hashes_of(pieces@)[j],
        decreases nb_hashes - i,
    {
        assert(i * 20 + 20 <= pieces@.len()) by (nonlinear_arith)
            requires
                i < nb_hashes,
                nb_hashes == pieces@.len() / 20,
        ;
        let h = slice_to_vec(pieces, i * SHA1_HASH_SIZE, i * SHA1_HASH_SIZE + SHA1_HASH_SIZE);
        hashes.push(h);
        i = i + 1;
    }
    assert(hashes@.map_values(|h: Vec<u8>| h@) =~= hashes_of(pieces@));
    Ok(hashes)
}

/// Whether `n` pieces of `piece_length` bytes cover `length` bytes as a plan
/// must.
pub fn check_plan(n: usize, piece_length: u32, length: u32) -> (r: bool)
    ensures
        r == plan_fits(n as int, piece_length as int, length as int),
{
    if piece_length == 0 {
        return false;
    }
    if n > 0xffff_ffffusize {
        assert((n - 1) * piece_length >= length) by (nonlinear_arith)
            requires
                n > 0xffff_ffffusize,
                piece_length >= 1,
                length <= u32::MAX,
        ;
        return false;
    }
    if n == 0 {
        return length == 0;
    }
    let n64: u64 = n as u64;
    let pl: u64 = piece_length as u64;
    assert(n64 * pl <= 0xffff_ffff_ffff_ffff) by (nonlinear_arith)
        requires
            n64 <= 0xffff_ffff,
            pl <= 0xffff_ffff,
    ;
    assert((n64 - 1) * pl <= n64 * pl) by (nonlinear_arith)
        requires
            n64 >= 1,
    ;
    let covered: u64 = n64 * pl;
    let before_last: u64 = (n64 - 1) * pl;
    covered >= length as u64 && (length as u64) > before_last
}

/// In a plan that fits, every piece lies inside the file and is not empty.
pub proof fn lemma_piece_in_file(n: int, piece_length: int, length: int, index: int)
    requires
        plan_fits(n, piece_length, length),
        0 <= index < n,
    ensures
        0 <= index * piece_length < length,
        index <= index * piece_length,
        0 < piece_len(piece_length, length, index) <= piece_length,
        index * piece_length + piece_len(piece_length, length, index) <= length,
        index < n - 1 ==> piece_len(piece_length, length, index) == piece_length,
{
    assert(index <= index * piece_length <= (n - 1) * piece_length) by (nonlinear_arith)
        requires
            0 <= index < n,
            piece_length > 0,
    ;
    if index < n - 1 {
        assert((index + 1) * piece_length <= (n - 1) * piece_length) by (nonlinear_arith)
            requires
                index + 1 <= n - 1,
                piece_length > 0,
        ;
        assert((index + 1) * piece_length == index * piece_length + piece_length) by (
        nonlinear_arith);
    }
}

impl Torrent {
    /// The piece plan fits the file and every hash is 20 bytes long.
    pub open spec fn wf(&self) -> bool {
        &&& plan_fits(self@.pieces_hashes.len() as int, self@.piece_length as int, self@.length as int)
        &&& forall|i: int|
            0 <= i < self@.pieces_hashes.len() ==> (#[trigger] self@.pieces_hashes[i]).len() == 20
    }

    /// The expected piece hashes, in index order.
    pub fn pieces_hashes(&self) -> (r: Vec<Vec<u8>>)
        ensures
            r@.map_values(|h: Vec<u8>| h@) == self@.pieces_hashes,
    {
        let mut out: Vec<Vec<u8>> = Vec::new();
        let mut i: usize = 0;
        while i < self.pieces_hashes.len()
            invariant
                i <= self.pieces_hashes@.len(),
                out@.len() == i,
                forall|j: int| 0 <= j < i ==> #[trigger] out@[j]@ == self@.pieces_hashes[j],
            decreases self.pieces_hashes@.len() - i,
        {
            let h = self.pieces_hashes[i].clone();
            assert(h@ =~= self@.pieces_hashes[i as int]);
            out.push(h);
            i = i + 1;
        }
        assert(out@.map_values(|h: Vec<u8>| h@) =~= self@.pieces_hashes);
        out
    }

    /// The length of every piece but the last.
    pub fn piece_length(&self) -> (r: u32)
        ensures
            r == self@.piece_length,
    {
        self.piece_length
    }

    /// The file length in bytes.
    pub fn length(&self) -> (r: u32)
        ensures
            r == self@.length,
    {
        self.length
    }

    /// The tracker's announce URL.
    pub fn announce(&self) -> (r: &String)
        ensures
            r@ == self@.announce,
    {
        &self.announce
    }

    /// The SHA-1 digest of the info dictionary.
    pub fn info_hash(&self) -> (r: &Vec<u8>)
        ensures
            r@ == self@.info_hash,
    {
        &self.info_hash
    }

    /// Our peer id.
    pub fn peer_id(&self) -> (r: &Vec<u8>)
        ensures
            r@ == self@.peer_id,
    {
        &self.peer_id
    }

    /// The suggested file name.
    pub fn name(&self) -> (r: &String)
        ensures
            r@ == self@.name,
    {
        &self.name
    }

    /// How many pieces the file has.
    pub fn num_pieces(&self) -> (r: usize)
        ensures
            r == self@.pieces_hashes.len(),
    {
        self.pieces_hashes.len()
    }

    /// The peers of the swarm.
    pub fn peers(&self) -> (r: &Vec<Peer>)
        ensures
            r@ == self@.peers,
    {
        &self.peers
    }

    /// Replaces the peers of the swarm.
    pub fn set_peers(&mut self, peers: Vec<Peer>)
        ensures
            final(self)@ == (TorrentView { peers: peers@, ..old(self)@ }),
    {
        self.peers = peers;
    }

    /// An empty torrent, with no pieces and no peers.
    pub fn new() -> (r: Torrent)
        ensures
            r@.announce.len() == 0,
            r@.info_hash.len() == 0,
            r@.pieces_hashes.len() == 0,
            r@.piece_length == 0,
            r@.length == 0,
            r@.name.len() == 0,
            r@.peer_id.len() == 0,
            r@.peers.len() == 0,
    {
        Torrent {
            announce: String::new(),
            info_hash: Vec::new(),
            pieces_hashes: Vec::new(),
            piece_length: 0,
            length: 0,
            name: String::new(),
            peer_id: Vec::new(),
            peers: Vec::new(),
        }
    }

    /// A torrent from the fields of its metainfo: `info` is the bencoded info
    /// dictionary, whose SHA-1 digest identifies the torrent, and `pieces` the
    /// concatenated piece hashes. Fails with `Metainfo` when `pieces` is not
    /// made of 20-byte hashes, and with `Plan` when the pieces do not cover the
    /// file as a plan must. The torrent has no peers yet.
    pub fn from_metainfo(
        announce: String,
        info: &[u8],
        pieces: &[u8],
        piece_length: u32,
        length: u32,
        name: String,
        peer_id: Vec<u8>,
    ) -> (r: Result<Torrent, Error>)
        requires
            info@.len() < 0x2000_0000_0000_0000,
        ensures
            match r {
                Ok(t) => {
                    &&& pieces@.len() % 20 == 0
                    &&& plan_fits((pieces@.len() / 20) as int, piece_length as int, length as int)
                    &&& t.wf()
                    &&& t@ == (TorrentView {
                        announce: announce@,
                        info_hash: sha1_of(info@),
                        pieces_hashes: hashes_of(pieces@),
                        piece_length,
                        length,
                        name: name@,
                        peer_id: peer_id@,
                        peers: Seq::empty(),
                    })
                },
                Err(e) => {
                    ||| pieces@.len() % 20 != 0 && e == Error::Metainfo
                    ||| pieces@.len() % 20 == 0 && !plan_fits(
                        (pieces@.len() / 20) as int,
                        piece_length as int,
                        length as int,
                    ) && e == Error::Plan
                },
            },
    {
        let pieces_hashes = split_pieces_hashes(pieces)?;
        assert(pieces_hashes@.map_values(|h: Vec<u8>| h@).len() == pieces_hashes@.len());
        if !check_plan(pieces_hashes.len(), piece_length, length) {
            return Err(Error::Plan);
        }
        let info_hash = sha1_digest(info);
        let t = Torrent {
            announce,
            info_hash,
            pieces_hashes,
            piece_length,
            length,
            name,
            peer_id,
            peers: Vec::new(),
        };
        assert(t@.peers =~= Seq::<Peer>::empty());
        Ok(t)
    }

    /// The length of piece `index`; fails with `Plan` when the piece would
    /// start at or past the end of the file.
    pub fn get_piece_length(&self, index: u32) -> (r: Result<u32, Error>)
        ensures
            match r {
                Ok(n) => {
                    &&& index as int * self@.piece_length < self@.length
                    &&& n == piece_len(self@.piece_length as int, self@.length as int, index as int)
                },
                Err(e) => index as int * self@.piece_length >= self@.length && e == Error::Plan,
            },
    {
        let pl: u64 = self.piece_length as u64;
        assert(index as u64 * pl <= 0xffff_fffe_0000_0001) by (nonlinear_arith)
            requires
                index <= 0xffff_ffff,
                pl <= 0xffff_ffff,
        ;
        let begin: u64 = index as u64 * pl;
        if begin >= self.length as u64 {
            return Err(Error::Plan);
        }
        let left: u64 = self.length as u64 - begin;
        if left < pl {
            Ok(left as u32)
        } else {
            Ok(self.piece_length)
        }
    }

    /// One fresh unit of work per piece, in index order, with its expected
    /// hash and length. Fails with `Plan` when the pieces do not cover the file
    /// as a plan must.
    pub fn piece_works(&self) -> (r: Result<Vec<PieceWork>, Error>)
        ensures
            match r {
                Ok(works) => {
                    &&& plan_fits(self@.pieces_hashes.len() as int, self@.piece_length as int, self@.length as int)
                    &&& works@.len() == self@.pieces_hashes.len()
                    &&& forall|i: int|
                        0 <= i < works@.len() ==> {
                            &&& (#[trigger] works@[i]).wf()
                            &&& works@[i].index == i
                            &&& works@[i].hash@ == self@.pieces_hashes[i]
                            &&& works@[i].length == piece_len(self@.piece_length as int, self@.length as int, i)
                            &&& works@[i].requests == 0
                            &&& works@[i].requested == 0
                            &&& works@[i].downloaded == 0
                        }
                },
                Err(e) => !plan_fits(self@.pieces_hashes.len() as int, self@.piece_length as int, self@.length as int) && e == Error::Plan,
            },
    {
        let n = self.pieces_hashes.len();
        if !check_plan(n, self.piece_length, self.length) {
            return Err(Error::Plan);
        }
        let mut works: Vec<PieceWork> = Vec::new();
        let mut i: usize = 0;
        while i < n
            invariant
                n == self@.pieces_hashes.len(),
                n == self.pieces_hashes@.len(),
                plan_fits(n as int, self@.piece_length as int, self@.length as int),
                i <= n,
                works@.len() == i,
                forall|j: int|
                    0 <= j < i ==> {
                        &&& (#[trigger] works@[j]).wf()
                        &&& works@[j].index == j
                        &&& works@[j].hash@ == self@.pieces_hashes[j]
                        &&& works@[j].length == piece_len(self@.piece_length as int, self@.length as int, j)
                        &&& works@[j].requests == 0
                        &&& works@[j].requested == 0
                        &&& works@[j].downloaded == 0
                    },
            decreases n - i,
        {
            proof {
                lemma_piece_in_file(n as int, self@.piece_length as int, self@.length as int, i as int);
            }
            let length = match self.get_piece_length(i as u32) {
                Ok(length) => length,
                Err(e) => return Err(e),
            };
            let hash = self.pieces_hashes[i].clone();
            assert(hash@ =~= self@.pieces_hashes[i as int]);
            works.push(PieceWork::new(i as u32, hash, length));
            i = i + 1;
        }
        Ok(works)
    }
}

} // verus!
