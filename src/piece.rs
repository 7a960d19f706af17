//! Units of work: a piece being downloaded and a piece that passed its check.
use vstd::prelude::*;

verus! {

/// Most REQUEST messages outstanding at once on a session.
pub const NB_REQUESTS_MAX: u32 = 5;

/// Largest block asked for in one REQUEST (2^14 bytes).
pub const BLOCK_SIZE_MAX: u32 = 16384;

/// A piece being downloaded by one worker.
#[derive(Clone, Debug)]
pub struct PieceWork {
    /// Piece index.
    pub index: u32,
    /// Expected SHA-1 hash of the piece.
    pub hash: Vec<u8>,
    /// Piece length in bytes.
    pub length: u32,
    /// Piece data, placed by offset.
    pub data: Vec<u8>,
    /// REQUEST messages sent and not yet answered.
    pub requests: u32,
    /// Bytes asked for so far.
    pub requested: u32,
    /// Bytes received so far.
    pub downloaded: u32,
}

/// A downloaded piece whose hash was checked.
#[derive(Clone, Debug)]
pub struct PieceResult {
    /// Piece index.
    pub index: u32,
    /// Piece length in bytes.
    pub length: u32,
    /// Piece data.
    pub data: Vec<u8>,
}

/// The length of the block that starts at `begin` in a piece of `length` bytes.
pub open spec fn block_len(length: int, begin: int) -> int {
    if length - begin < BLOCK_SIZE_MAX {
        length - begin
    } else {
        BLOCK_SIZE_MAX as int
    }
}

/// How many blocks a piece of `length` bytes is requested in.
pub open spec fn block_count(length: int) -> int {
    (length + BLOCK_SIZE_MAX - 1) / (BLOCK_SIZE_MAX as int)
}

impl PieceWork {
    /// The pipeline counters are consistent: at most five requests in flight,
    /// no more received than asked for, no more asked for than the piece holds,
    /// and requests made block by block from the start of the piece.
    pub open spec fn wf(&self) -> bool {
        &&& self.data@.len() == self.length
        &&& self.requests <= NB_REQUESTS_MAX
        &&& self.downloaded <= self.requested <= self.length
        &&& (self.requested % BLOCK_SIZE_MAX == 0 || self.requested == self.length)
    }

    /// The same piece, whatever its progress.
    pub open spec fn same_piece(&self, other: &PieceWork) -> bool {
        &&& self.index == other.index
        &&& self.hash@ == other.hash@
        &&& self.length == other.length
    }

    /// A fresh piece with zeroed data and counters.
    pub fn new(index: u32, hash: Vec<u8>, length: u32) -> (r: PieceWork)
        ensures
            r.wf(),
            r.index == index,
            r.hash@ == hash@,
            r.length == length,
            r.data@ == Seq::new(length as nat, |i: int| 0u8),
            r.requests == 0,
            r.requested == 0,
            r.downloaded == 0,
    {
        let data: Vec<u8> = vec![0u8; length as usize];
        assert(data@ =~= Seq::new(length as nat, |i: int| 0u8));
        PieceWork { index, hash, length, data, requests: 0, requested: 0, downloaded: 0 }
    }

    /// Whether every byte of the piece has arrived.
    pub fn is_downloaded(&self) -> (r: bool)
        ensures
            r == (self.downloaded >= self.length),
    {
        self.downloaded >= self.length
    }

    /// Starts a download attempt: the counters return to zero and the buffer
    /// is cleared, so nothing of an earlier attempt is kept.
    pub fn reset(&mut self)
        ensures
            final(self).wf(),
            final(self).same_piece(old(self)),
            final(self).data@ == Seq::new(old(self).length as nat, |i: int| 0u8),
            final(self).requests == 0,
            final(self).requested == 0,
            final(self).downloaded == 0,
    {
        self.data = vec![0u8; self.length as usize];
        assert(self.data@ =~= Seq::new(self.length as nat, |i: int| 0u8));
        self.requests = 0;
        self.requested = 0;
        self.downloaded = 0;
    }
}

impl PieceResult {
    /// A checked piece.
    pub fn new(index: u32, length: u32, data: Vec<u8>) -> (r: PieceResult)
        ensures
            r.index == index,
            r.length == length,
            r.data@ == data@,
    {
        PieceResult { index, length, data }
    }
}

/// `k` blocks, the last of which starts before `length`, are at most
/// `block_count(length)`; exactly that many when they reach `length`.
pub proof fn lemma_block_count_bounds(length: int, k: int)
    requires
        0 <= length,
        0 <= k,
        k == 0 || (k - 1) * BLOCK_SIZE_MAX < length,
    ensures
        k <= block_count(length),
        length <= k * BLOCK_SIZE_MAX ==> k == block_count(length),
{
    assert(k <= (length + 16383) / 16384) by (nonlinear_arith)
        requires
            0 <= length,
            0 <= k,
            k == 0 || (k - 1) * 16384 < length,
    ;
    if length <= k * 16384 {
        assert((length + 16383) / 16384 <= k) by (nonlinear_arith)
            requires
                0 <= length,
                length <= k * 16384,
        ;
    }
}

/// A piece of `length` bytes is asked for in `block_count(length)` blocks of
/// `BLOCK_SIZE_MAX` bytes, but for the last one, which is shorter exactly when
/// `length` is not a multiple of the block size.
pub proof fn lemma_block_split(length: int)
    requires
        length > 0,
    ensures
        block_count(length) >= 1,
        (block_count(length) - 1) * BLOCK_SIZE_MAX < length,
        length <= block_count(length) * BLOCK_SIZE_MAX,
        forall|k: int|
            0 <= k < block_count(length) - 1 ==> #[trigger] block_len(length, k * BLOCK_SIZE_MAX)
                == BLOCK_SIZE_MAX,
        length % (BLOCK_SIZE_MAX as int) != 0 ==> block_len(
            length,
            (block_count(length) - 1) * BLOCK_SIZE_MAX,
        ) == length % (BLOCK_SIZE_MAX as int),
        length % (BLOCK_SIZE_MAX as int) == 0 ==> block_len(
            length,
            (block_count(length) - 1) * BLOCK_SIZE_MAX,
        ) == BLOCK_SIZE_MAX,
{
    let n = block_count(length);
    assert forall|k: int|
        0 <= k < block_count(length) - 1 implies #[trigger] block_len(length, k * BLOCK_SIZE_MAX)
        == BLOCK_SIZE_MAX by {
        assert(k * 16384 + 16384 <= (n - 1) * 16384);
    }
}

} // verus!
