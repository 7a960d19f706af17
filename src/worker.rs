//! The decisions of a worker around one unit of work: whether to download it
//! from this peer, and what becomes of it afterwards.
use vstd::prelude::*;

use crate::bitfield::has_bit;
use crate::client::Client;
use crate::error::Error;
use crate::integrity::{sha1_of, verify_piece_integrity};
use crate::piece::{PieceResult, PieceWork};

verus! {

/// What a worker does with a unit of work it took from the queue.
pub enum Claim {
    /// The peer lacks the piece: put it back and take the next one.
    Requeue(PieceWork),
    /// The peer has the piece: download it.
    Download(PieceWork),
}

/// What becomes of a unit of work after a download attempt.
pub enum Settled {
    /// The data failed its hash check: put the work back; the session goes on.
    Retry(PieceWork),
    /// The download failed: put the work back and end the session.
    Abandon(PieceWork),
    /// The piece passed its check: announce it and hand the result on.
    Deliver(PieceResult),
}

/// Decides whether to download `piece_work` from the peer of `client`.
pub fn claim(client: &Client, piece_work: PieceWork) -> (r: Claim)
    ensures
        match r {
            Claim::Requeue(w) => !has_bit(client@.bitfield, piece_work.index as int) && w == piece_work,
            Claim::Download(w) => has_bit(client@.bitfield, piece_work.index as int) && w == piece_work,
        },
{
    if client.has_piece(piece_work.index) {
        Claim::Download(piece_work)
    } else {
        Claim::Requeue(piece_work)
    }
}

/// Settles a download attempt whose outcome is `downloaded`. Whatever the
/// outcome, the work is handed back to be queued again or turned into a result
/// that carries its index, length and data: no piece is lost.
pub fn settle(piece_work: PieceWork, downloaded: Result<(), Error>) -> (r: Settled)
    requires
        piece_work.data@.len() < 0x2000_0000_0000_0000,
    ensures
        match r {
            Settled::Abandon(w) => downloaded is Err && w == piece_work,
            Settled::Retry(w) => downloaded is Ok && sha1_of(piece_work.data@) != piece_work.hash@ && w == piece_work,
            Settled::Deliver(res) => {
                &&& downloaded is Ok
                &&& sha1_of(piece_work.data@) == piece_work.hash@
                &&& res.index == piece_work.index
                &&& res.length == piece_work.length
                &&& res.data@ == piece_work.data@
            },
        },
{
    if downloaded.is_err() {
        return Settled::Abandon(piece_work);
    }
    match verify_piece_integrity(&piece_work) {
        Ok(()) => Settled::Deliver(PieceResult::new(piece_work.index, piece_work.length, piece_work.data)),
        Err(_) => Settled::Retry(piece_work),
    }
}

} // verus!
