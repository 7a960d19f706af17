//! The error kinds of a download.
use vstd::prelude::*;

verus! {

/// Why a step of a download failed.
#[derive(Clone, Copy, Debug, PartialEq, Eq, Structural)]
pub enum Error {
    /// The handshake was malformed or named another torrent.
    Handshake,
    /// A message was malformed, unexpected or out of place.
    Protocol,
    /// Reading from or writing to the peer failed or timed out.
    Io,
    /// A downloaded piece does not match its expected hash.
    Integrity,
    /// The piece layout is inconsistent with the file length.
    Plan,
    /// The metainfo is malformed.
    Metainfo,
}

} // verus!
