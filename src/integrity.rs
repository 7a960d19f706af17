//! SHA-1 integrity checks.
use vstd::prelude::*;

use crypto::digest::Digest;

use crate::error::Error;
use crate::piece::PieceWork;

verus! {

/// The SHA-1 digest of `data`.
pub uninterp spec fn sha1_of(data: Seq<u8>) -> Seq<u8>;

/// Relies on rust-crypto's `Sha1` (`Digest::input`, then `Digest::result` into a
/// buffer of `output_bytes()`, 20 bytes): the SHA-1 digest of `data`. Its
/// length counter panics past 2^61 bytes.
#[verifier::external_body]
pub(crate) fn sha1_digest(data: &[u8]) -> (r: Vec<u8>)
    requires
        data@.len() < 0x2000_0000_0000_0000,
    ensures
        r@ == sha1_of(data@),
        r@.len() == 20,
{
    let mut hasher = crypto::sha1::Sha1::new();
    hasher.input(data);
    let mut out: Vec<u8> = vec![0u8; hasher.output_bytes()];
    hasher.result(&mut out);
    out
}

/// Whether two byte strings are equal.
pub fn bytes_equal(a: &[u8], b: &[u8]) -> (r: bool)
    ensures
        r == (a@ == b@),
{
    if a.len() != b.len() {
        return false;
    }
    let mut i: usize = 0;
    while i < a.len()
        invariant
            a@.len() == b@.len(),
            i <= a@.len(),
            a@.subrange(0, i as int) == b@.subrange(0, i as int),
        decreases a@.len() - i,
    {
        if a[i] != b[i] {
            assert(a@.subrange(0, i as int + 1)[i as int] != b@.subrange(0, i as int + 1)[i as int]);
            return false;
        }
        assert(a@.subrange(0, i as int + 1) =~= a@.subrange(0, i as int).push(a@[i as int]));
        assert(b@.subrange(0, i as int + 1) =~= b@.subrange(0, i as int).push(b@[i as int]));
        i = i + 1;
    }
    assert(a@ =~= a@.subrange(0, i as int));
    assert(b@ =~= b@.subrange(0, i as int));
    true
}

/// Compares a computed digest with the expected one.
pub fn check_digest(digest: &[u8], expected: &[u8]) -> (r: Result<(), Error>)
    ensures
        match r {
            Ok(()) => digest@ == expected@,
            Err(e) => digest@ != expected@ && e == Error::Integrity,
        },
{
    if bytes_equal(digest, expected) {
        Ok(())
    } else {
        Err(Error::Integrity)
    }
}

/// Checks the downloaded data of a piece against its expected hash.
pub fn verify_piece_integrity(piece_work: &PieceWork) -> (r: Result<(), Error>)
    requires
        piece_work.data@.len() < 0x2000_0000_0000_0000,
    ensures
        match r {
            Ok(()) => sha1_of(piece_work.data@) == piece_work.hash@,
            Err(e) => sha1_of(piece_work.data@) != piece_work.hash@ && e == Error::Integrity,
        },
{
    let digest = sha1_digest(piece_work.data.as_slice());
    check_digest(digest.as_slice(), piece_work.hash.as_slice())
}

} // verus!
