//! The driver's side: checked pieces assembled into the file.
use vstd::prelude::*;

use crate::error::Error;
use crate::integrity::{check_digest, sha1_digest, sha1_of};
use crate::piece::PieceResult;
use crate::client::write_block;
use crate::torrent::{check_plan, lemma_piece_in_file, piece_len, plan_fits, Torrent};

verus! {

/// The bytes of piece `i` within the file `data`.
pub open spec fn piece_bytes(data: Seq<u8>, piece_length: int, length: int, i: int) -> Seq<u8> {
    data.subrange(i * piece_length, i * piece_length + piece_len(piece_length, length, i))
}

/// What an assembly holds.
pub struct AssemblyView {
    pub piece_length: u32,
    pub length: u32,
    pub hashes: Seq<Seq<u8>>,
    pub data: Seq<u8>,
    pub received: Seq<bool>,
}

/// Whether an assembly in state `v` takes `result`: a piece not taken yet, of
/// its planned length, whose digest is its hash.
pub open spec fn takes_result(v: AssemblyView, result: PieceResult) -> bool {
    let i = result.index as int;
    &&& 0 <= i < v.received.len()
    &&& !v.received[i]
    &&& result.length == piece_len(v.piece_length as int, v.length as int, i)
    &&& result.data@.len() == result.length
    &&& sha1_of(result.data@) == v.hashes[i]
}

/// The state after `result` was taken.
pub open spec fn took_result(v: AssemblyView, result: PieceResult) -> AssemblyView {
    AssemblyView {
        data: write_block(v.data, result.index * v.piece_length, result.data@),
        received: v.received.update(result.index as int, true),
        ..v
    }
}

/// Each piece is taken at most once: after a result was taken, no other result
/// for the same index is.
pub proof fn lemma_taken_once(v: AssemblyView, first: PieceResult, second: PieceResult)
    requires
        takes_result(v, first),
        second.index == first.index,
    ensures
        !takes_result(took_result(v, first), second),
{
}

/// The file being assembled from checked pieces, each taken once.
pub struct Assembly {
    piece_length: u32,
    length: u32,
    hashes: Vec<Vec<u8>>,
    data: Vec<u8>,
    received: Vec<bool>,
}

impl View for Assembly {
    type V = AssemblyView;

    closed spec fn view(&self) -> AssemblyView {
        AssemblyView {
            piece_length: self.piece_length,
            length: self.length,
            hashes: self.hashes@.map_values(|h: Vec<u8>| h@),
            data: self.data@,
            received: self.received@,
        }
    }
}

/// In a plan that fits, an earlier piece ends where or before a later one begins.
pub proof fn lemma_pieces_disjoint(n: int, piece_length: int, length: int, j: int, k: int)
    requires
        plan_fits(n, piece_length, length),
        0 <= j < k < n,
    ensures
        j * piece_length + piece_len(piece_length, length, j) <= k * piece_length,
{
    lemma_piece_in_file(n, piece_length, length, j);
    assert((j + 1) * piece_length <= k * piece_length) by (nonlinear_arith)
        requires
            j + 1 <= k,
            piece_length > 0,
    ;
    assert((j + 1) * piece_length == j * piece_length + piece_length) by (nonlinear_arith);
}

impl Assembly {
    /// The plan fits, the file has its full length, and every piece taken so
    /// far holds bytes whose digest is that piece's hash.
    pub open spec fn wf(&self) -> bool {
        let v = self@;
        &&& plan_fits(v.hashes.len() as int, v.piece_length as int, v.length as int)
        &&& v.data.len() == v.length
        &&& v.received.len() == v.hashes.len()
        &&& forall|i: int|
            0 <= i < v.received.len() && #[trigger] v.received[i] ==> sha1_of(
                piece_bytes(v.data, v.piece_length as int, v.length as int, i),
            ) == v.hashes[i]
    }

    /// Whether every piece has been taken.
    pub open spec fn complete(&self) -> bool {
        forall|i: int| 0 <= i < self@.received.len() ==> #[trigger] self@.received[i]
    }

    /// An empty file of the torrent's length, with no piece taken. Fails with
    /// `Plan` when the torrent's pieces do not cover its length as a plan must.
    pub fn new(torrent: &Torrent) -> (r: Result<Assembly, Error>)
        ensures
            match r {
                Ok(a) => {
                    &&& a.wf()
                    &&& a@.piece_length == torrent@.piece_length
                    &&& a@.length == torrent@.length
                    &&& a@.hashes == torrent@.pieces_hashes
                    &&& a@.data == Seq::new(torrent@.length as nat, |i: int| 0u8)
                    &&& a@.received == Seq::new(torrent@.pieces_hashes.len(), |i: int| false)
                },
                Err(e) => !plan_fits(torrent@.pieces_hashes.len() as int, torrent@.piece_length as int, torrent@.length as int) && e == Error::Plan,
            },
    {
        let hashes = torrent.pieces_hashes();
        let n = hashes.len();
        let piece_length = torrent.piece_length();
        let length = torrent.length();
        if !check_plan(n, piece_length, length) {
            return Err(Error::Plan);
        }
        let data: Vec<u8> = vec![0u8; length as usize];
        let received: Vec<bool> = vec![false; n];
        let a = Assembly { piece_length, length, hashes, data, received };
        assert(a@.data =~= Seq::new(length as nat, |i: int| 0u8));
        assert(a@.received =~= Seq::new(n as nat, |i: int| false));
        Ok(a)
    }

    /// Takes a checked piece into the file. Fails with `Protocol` when the
    /// index is out of range, the piece was already taken, or its length is not
    /// the planned one; with `Integrity` when its digest is not its hash. On
    /// failure nothing changes.
    pub fn accept(&mut self, result: PieceResult) -> (r: Result<(), Error>)
        requires
            old(self).wf(),
        ensures
            final(self).wf(),
            ({
                let v = old(self)@;
                let i = result.index as int;
                let fits = 0 <= i < v.received.len() && !v.received[i]
                    && result.length == piece_len(v.piece_length as int, v.length as int, i)
                    && result.data@.len() == result.length;
                match r {
                    Ok(()) => takes_result(v, result) && final(self)@ == took_result(v, result),
                    Err(e) => {
                        &&& final(self)@ == v
                        &&& (!fits && e == Error::Protocol || fits && sha1_of(result.data@) != v.hashes[i] && e == Error::Integrity)
                    },
                }
            }),
    {
        let ghost v = self@;
        let n = self.received.len();
        let index = result.index as usize;
        if index >= n || self.received[index] {
            return Err(Error::Protocol);
        }
        proof {
            lemma_piece_in_file(n as int, v.piece_length as int, v.length as int, index as int);
        }
        let pl: u64 = self.piece_length as u64;
        let begin: u64 = index as u64 * pl;
        let left: u64 = self.length as u64 - begin;
        let expected: u32 = if left < pl { left as u32 } else { self.piece_length };
        if result.length != expected || result.data.len() != result.length as usize {
            return Err(Error::Protocol);
        }
        let digest = sha1_digest(result.data.as_slice());
        if check_digest(digest.as_slice(), self.hashes[index].as_slice()).is_err() {
            return Err(Error::Integrity);
        }
        let begin: usize = begin as usize;
        let len: usize = result.data.len();
        let ghost old_data = self.data@;
        let mut i: usize = 0;
        while i < len
            invariant
                len == result.data@.len(),
                begin + len <= old_data.len(),
                self.data@.len() == old_data.len(),
                self.piece_length == v.piece_length,
                self.length == v.length,
                self.hashes@.map_values(|h: Vec<u8>| h@) == v.hashes,
                self.received@ == v.received,
                old_data == v.data,
                old_data.len() == v.length,
                i <= len,
                forall|k: int|
                    0 <= k < old_data.len() ==> #[trigger] self.data@[k] == if begin <= k < begin + i {
                        result.data@[k - begin]
                    } else {
                        old_data[k]
                    },
            decreases len - i,
        {
            self.data.set(begin + i, result.data[i]);
            i = i + 1;
        }
        assert(self.data@ =~= write_block(old_data, begin as int, result.data@));
        self.received.set(index, true);
        proof {
            let nv = self@;
            assert(nv.received =~= v.received.update(index as int, true));
            assert forall|j: int|
                0 <= j < nv.received.len() && #[trigger] nv.received[j] implies sha1_of(
                    piece_bytes(nv.data, nv.piece_length as int, nv.length as int, j),
                ) == nv.hashes[j] by {
                if j == index {
                    assert(piece_bytes(nv.data, nv.piece_length as int, nv.length as int, j) =~= result.data@);
                } else {
                    lemma_piece_in_file(n as int, v.piece_length as int, v.length as int, j);
                    if j < index {
                        lemma_pieces_disjoint(n as int, v.piece_length as int, v.length as int, j, index as int);
                    } else {
                        lemma_pieces_disjoint(n as int, v.piece_length as int, v.length as int, index as int, j);
                    }
                    assert(piece_bytes(nv.data, nv.piece_length as int, nv.length as int, j) =~= piece_bytes(v.data, v.piece_length as int, v.length as int, j));
                }
            }
        }
        Ok(())
    }

    /// Whether every piece has been taken.
    pub fn is_complete(&self) -> (r: bool)
        ensures
            r == self.complete(),
    {
        let mut i: usize = 0;
        while i < self.received.len()
            invariant
                i <= self.received@.len(),
                forall|j: int| 0 <= j < i ==> #[trigger] self@.received[j],
            decreases self.received@.len() - i,
        {
            if !self.received[i] {
                assert(!self@.received[i as int]);
                return false;
            }
            i = i + 1;
        }
        true
    }

    /// How many pieces have been taken.
    pub fn received_count(&self) -> (r: usize)
        ensures
            r == self@.received.filter(|b: bool| b).len(),
    {
        let mut count: usize = 0;
        let mut i: usize = 0;
        while i < self.received.len()
            invariant
                i <= self.received@.len(),
                count == self@.received.subrange(0, i as int).filter(|b: bool| b).len(),
                count <= i,
            decreases self.received@.len() - i,
        {
            proof {
                let s = self@.received;
                assert(s.subrange(0, i as int + 1).drop_last() =~= s.subrange(0, i as int));
                reveal(Seq::filter);
            }
            if self.received[i] {
                count = count + 1;
            }
            i = i + 1;
        }
        assert(self@.received.subrange(0, i as int) =~= self@.received);
        count
    }

    /// The assembled file. It is as long as the torrent says; once complete,
    /// every piece of it has the digest its hash names.
    pub fn into_data(self) -> (r: Vec<u8>)
        requires
            self.wf(),
        ensures
            r@ == self@.data,
            r@.len() == self@.length,
            self.complete() ==> forall|i: int|
                0 <= i < self@.hashes.len() ==> sha1_of(
                    #[trigger] piece_bytes(r@, self@.piece_length as int, self@.length as int, i),
                ) == self@.hashes[i],
    {
        proof {
            if self.complete() {
                assert forall|i: int| 0 <= i < self@.hashes.len() implies sha1_of(
                    #[trigger] piece_bytes(self@.data, self@.piece_length as int, self@.length as int, i),
                ) == self@.hashes[i] by {
                    assert(self@.received[i]);
                }
            }
        }
        self.data
    }
}

} // verus!
