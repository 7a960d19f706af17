//! A BitTorrent v1 leecher library: the wire codec, peer bitfields, the piece
//! planner, the per-peer session and piece downloader state machines, integrity
//! checking and file assembly.
pub mod assembly;
pub mod bitfield;
pub mod client;
pub mod error;
pub mod handshake;
pub mod integrity;
pub mod message;
pub mod peer;
pub mod piece;
pub mod torrent;
pub mod worker;
